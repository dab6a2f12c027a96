//! The relay's own API key: comparing it, making it, and getting it from its file.

use vstd::prelude::*;

verus! {

/// The byte of `s` at `i`, or zero past its end.
pub open spec fn byte_or_zero(s: Seq<u8>, i: int) -> u8 {
    if 0 <= i < s.len() { s[i] } else { 0 }
}

/// Compares two byte strings. It reads every byte up to the longer length with no early
/// exit, so that its time depends only on the lengths; that holds by construction and is
/// not part of the contract, which states only the result.
pub fn constant_time_eq(left: &[u8], right: &[u8]) -> (equal: bool)
    ensures
        equal == (left@ == right@),
{
    let llen = left.len();
    let rlen = right.len();
    let mut difference: usize = llen ^ rlen;
    assert((llen ^ rlen) == 0usize <==> llen == rlen) by (bit_vector);
    let length = if llen > rlen { llen } else { rlen };
    let mut index: usize = 0;
    while index < length
        invariant
            llen == left@.len(),
            rlen == right@.len(),
            length == if llen > rlen { llen } else { rlen },
            index <= length,
            (difference == 0) <==> (llen == rlen && forall|j: int|
                0 <= j < index ==> byte_or_zero(left@, j) == byte_or_zero(right@, j)),
        decreases length - index,
    {
        let left_byte: u8 = if index < llen { left[index] } else { 0 };
        let right_byte: u8 = if index < rlen { right[index] } else { 0 };
        let x: u8 = left_byte ^ right_byte;
        let d: usize = difference;
        assert((x == 0u8) <==> (left_byte == right_byte)) by (bit_vector)
            requires x == left_byte ^ right_byte;
        assert(((d | (x as usize)) == 0usize) <==> (d == 0usize && x == 0u8)) by (bit_vector);
        difference = d | (x as usize);
        assert(byte_or_zero(left@, index as int) == left_byte);
        assert(byte_or_zero(right@, index as int) == right_byte);
        index = index + 1;
    }
    if difference == 0 {
        assert(left@ =~= right@) by {
            assert forall|j: int| 0 <= j < llen implies left@[j] == right@[j] by {
                assert(byte_or_zero(left@, j) == byte_or_zero(right@, j));
            }
        }
    } else if llen == rlen {
        let ghost k = choose|j: int| 0 <= j < index && byte_or_zero(left@, j) != byte_or_zero(right@, j);
        assert(left@[k] != right@[k]);
    }
    difference == 0
}

} // verus!

verus! {

/// What kind of file-system failure happened.
#[derive(Debug, Clone, Copy, PartialEq, Eq, Structural)]
pub enum IoKind {
    NotFound,
    AlreadyExists,
    Other,
}

/// A file-system failure: its kind and its text.
#[derive(Debug, Clone)]
pub struct IoFailure {
    pub kind: IoKind,
    pub message: String,
}

/// Why the relay's API key could not be had.
#[derive(Debug)]
pub enum ApiKeyError {
    Read { path: String, source: IoFailure },
    Create { path: String, source: IoFailure },
    Write { path: String, source: IoFailure },
    Empty { path: String },
    /// The operating system's random source failed while a new key was being made.
    Random { path: String },
}

impl ApiKeyError {
    /// The error's text.
    pub fn to_string(&self) -> (s: String)
        ensures
            s@ == match self {
                ApiKeyError::Read { path, source } => "failed to read API key file "@ + path@
                    + ": "@ + source.message@,
                ApiKeyError::Create { path, source } => "failed to create API key file "@ + path@
                    + ": "@ + source.message@,
                ApiKeyError::Write { path, source } => "failed to write API key file "@ + path@
                    + ": "@ + source.message@,
                ApiKeyError::Empty { path } => "API key file "@ + path@ + " is empty"@,
                ApiKeyError::Random { path } => "failed to draw random bytes for API key file "@
                    + path@,
            },
    {
        match self {
            ApiKeyError::Read { path, source } => {
                let mut s = crate::text::concat3("failed to read API key file ", path.as_str(), ": ");
                s.append(source.message.as_str());
                s
            },
            ApiKeyError::Create { path, source } => {
                let mut s = crate::text::concat3("failed to create API key file ", path.as_str(), ": ");
                s.append(source.message.as_str());
                s
            },
            ApiKeyError::Write { path, source } => {
                let mut s = crate::text::concat3("failed to write API key file ", path.as_str(), ": ");
                s.append(source.message.as_str());
                s
            },
            ApiKeyError::Empty { path } => crate::text::concat3(
                "API key file ",
                path.as_str(),
                " is empty",
            ),
            ApiKeyError::Random { path } => {
                let mut s = String::from_str("failed to draw random bytes for API key file ");
                s.append(path.as_str());
                s
            },
        }
    }
}

fn copy_failure(f: &IoFailure) -> (g: IoFailure)
    ensures
        g.kind == f.kind,
        g.message@ == f.message@,
{
    IoFailure { kind: f.kind, message: f.message.clone() }
}

/// The key that a key file holds: its text without surrounding whitespace, which must not be
/// empty.
pub fn api_key_from_contents(path: &str, read: &Result<String, IoFailure>) -> (r: Result<String, ApiKeyError>)
    ensures
        match read {
            Err(f) => r matches Err(ApiKeyError::Read { path: p, source }) && p@ == path@
                && source.kind == f.kind && source.message@ == f.message@,
            Ok(text) => if crate::text::trim(text@).len() == 0 {
                r matches Err(ApiKeyError::Empty { path: p }) && p@ == path@
            } else {
                r matches Ok(key) && key@ == crate::text::trim(text@)
            },
        },
{
    match read {
        Err(f) => Err(ApiKeyError::Read { path: String::from_str(path), source: copy_failure(f) }),
        Ok(text) => {
            let chars = crate::text::to_chars(text.as_str());
            let key = crate::text::trim_chars(chars.as_slice());
            if key.len() == 0 {
                Err(ApiKeyError::Empty { path: String::from_str(path) })
            } else {
                Ok(crate::text::from_chars(key.as_slice()))
            }
        },
    }
}

/// Two lowercase hexadecimal digits for each byte, high nibble first.
pub open spec fn key_text(bytes: Seq<u8>) -> Seq<char>
    decreases bytes.len(),
{
    if bytes.len() == 0 {
        Seq::<char>::empty()
    } else {
        key_text(bytes.drop_last()) + seq![
            crate::text::hex_digit_char((bytes.last() / 16) as nat),
            crate::text::hex_digit_char((bytes.last() % 16) as nat),
        ]
    }
}

pub open spec fn is_lower_hex(c: char) -> bool {
    ('0' <= c && c <= '9') || ('a' <= c && c <= 'f')
}

/// The hexadecimal text of some bytes is twice as long and made of lowercase hexadecimal
/// digits.
pub proof fn lemma_key_text_shape(bytes: Seq<u8>)
    ensures
        key_text(bytes).len() == 2 * bytes.len(),
        forall|i: int| 0 <= i < key_text(bytes).len() ==> is_lower_hex(#[trigger] key_text(bytes)[i]),
    decreases bytes.len(),
{
    if bytes.len() > 0 {
        lemma_key_text_shape(bytes.drop_last());
        let hi = (bytes.last() / 16) as nat;
        let lo = (bytes.last() % 16) as nat;
        assert(is_lower_hex(crate::text::hex_digit_char(hi)));
        assert(is_lower_hex(crate::text::hex_digit_char(lo)));
        let prev = key_text(bytes.drop_last());
        assert forall|i: int| 0 <= i < key_text(bytes).len() implies is_lower_hex(
            #[trigger] key_text(bytes)[i],
        ) by {
            if i < prev.len() {
                assert(key_text(bytes)[i] == prev[i]);
            }
        }
    }
}

/// The key text for some bytes.
pub fn encode_key(bytes: &[u8]) -> (key: String)
    ensures
        key@ == key_text(bytes@),
{
    let mut key = String::new();
    let n = bytes.len();
    for i in 0..n
        invariant
            n == bytes@.len(),
            key@ == key_text(bytes@.take(i as int)),
    {
        let b = bytes[i];
        assert(bytes@.take(i + 1).drop_last() =~= bytes@.take(i as int));
        let hi = crate::text::digit_char((b / 16) as u32);
        let lo = crate::text::digit_char((b % 16) as u32);
        let ghost before = key@;
        crate::text::push_char(&mut key, hi);
        crate::text::push_char(&mut key, lo);
        assert(key@ =~= before + seq![hi, lo]);
    }
    assert(bytes@.take(n as int) =~= bytes@);
    key
}

/// `n` bytes from the operating system's secure random source, filled by
/// `rand::RngCore::try_fill_bytes` on `rand::rngs::OsRng`, or `None` when the operating
/// system could not supply them. When bytes come back there are `n` of them; which bytes,
/// and whether the source fails, is chance and is not stated.
#[verifier::external_body]
fn os_random_bytes(n: usize) -> (bytes: Option<Vec<u8>>)
    ensures
        bytes matches Some(b) ==> b@.len() == n,
{
    let mut bytes = vec![0u8; n];
    match rand::RngCore::try_fill_bytes(&mut rand::rngs::OsRng, &mut bytes) {
        Ok(()) => Some(bytes),
        Err(_) => None,
    }
}

/// A fresh relay API key: 256 random bits as 64 lowercase hexadecimal digits, or `None`
/// when the operating system's random source fails.
pub fn generate_api_key() -> (key: Option<String>)
    ensures
        key matches Some(k) ==> {
            &&& exists|bytes: Seq<u8>| bytes.len() == 32 && k@ == key_text(bytes)
            &&& fresh_key(k@)
        },
{
    match os_random_bytes(32) {
        Some(bytes) => {
            let key = encode_key(bytes.as_slice());
            proof {
                lemma_key_text_shape(bytes@);
            }
            Some(key)
        },
        None => None,
    }
}

/// Whether `key` is a fresh key.
pub open spec fn fresh_key(key: Seq<char>) -> bool {
    &&& key.len() == 64
    &&& forall|i: int| 0 <= i < key.len() ==> is_lower_hex(#[trigger] key[i])
}

} // verus!

verus! {

/// Where getting the relay's key file stands.
pub enum KeyState {
    /// Nothing done yet; `replace` asks for a new key in any case.
    Begin { replace: bool },
    /// The key file is being read.
    Reading,
    /// The key file's directory is being made.
    MakingDirectory { replace: bool },
    /// A new key file is being created, for `key`.
    Opening { key: String },
    /// `key` is being written.
    Writing { key: String },
    /// The file that appeared meanwhile is being read.
    Rereading,
    /// Finished.
    Done,
}

/// What the file system answered.
pub enum KeyEvent {
    Started,
    ReadResult(Result<String, IoFailure>),
    DirectoryResult(Result<(), IoFailure>),
    OpenResult(Result<(), IoFailure>),
    WriteResult(Result<(), IoFailure>),
}

/// What to do next.
pub enum KeyAction {
    /// Read the key file to a string (and keep its permissions private).
    ReadFile,
    /// Make the key file's parent directory, if it has one (and keep it private).
    MakeDirectory,
    /// Create the key file, failing if it exists, with private permissions.
    CreateNewFile,
    /// Write `contents` to the file just created.
    WriteNewFile { contents: String },
    /// Write `contents` to the key file, replacing what it held.
    ReplaceFile { contents: String },
    /// Stop with this outcome.
    Finish(Result<String, ApiKeyError>),
}

/// Whether an event answers what the state waits for.
pub open spec fn answers(state: KeyState, event: KeyEvent) -> bool {
    match state {
        KeyState::Begin { .. } => event is Started,
        KeyState::Reading => event is ReadResult,
        KeyState::MakingDirectory { .. } => event is DirectoryResult,
        KeyState::Opening { .. } => event is OpenResult,
        KeyState::Writing { .. } => event is WriteResult,
        KeyState::Rereading => event is ReadResult,
        KeyState::Done => false,
    }
}

/// Whether `r` is the outcome of reading the key file at `path` with result `read`.
pub open spec fn read_outcome(path: Seq<char>, read: Result<String, IoFailure>, r: Result<String, ApiKeyError>) -> bool {
    match read {
        Err(f) => r matches Err(ApiKeyError::Read { path: p, source }) && p@ == path
            && source.kind == f.kind && source.message@ == f.message@,
        Ok(text) => if crate::text::trim(text@).len() == 0 {
            r matches Err(ApiKeyError::Empty { path: p }) && p@ == path
        } else {
            r matches Ok(key) && key@ == crate::text::trim(text@)
        },
    }
}

/// Whether `e` is the error that file-system failure `f` on `path` gives as `Create`.
pub open spec fn create_error(e: ApiKeyError, path: Seq<char>, f: IoFailure) -> bool {
    e matches ApiKeyError::Create { path: p, source } && p@ == path && source.kind == f.kind
        && source.message@ == f.message@
}

/// Whether `e` is the error that file-system failure `f` on `path` gives as `Write`.
pub open spec fn write_error(e: ApiKeyError, path: Seq<char>, f: IoFailure) -> bool {
    e matches ApiKeyError::Write { path: p, source } && p@ == path && source.kind == f.kind
        && source.message@ == f.message@
}

/// Whether `e` is the error for a failed random source while making a key for `path`.
pub open spec fn random_error(e: ApiKeyError, path: Seq<char>) -> bool {
    e matches ApiKeyError::Random { path: p } && p@ == path
}

/// One step of getting the key file at `path`: reuse the key that it holds; when there is
/// no such file (or `replace` asks for it), make a fresh key and store it with a newline.
pub open spec fn key_step(
    path: Seq<char>,
    state: KeyState,
    event: KeyEvent,
    next: KeyState,
    action: KeyAction,
) -> bool {
    match (state, event) {
        (KeyState::Begin { replace }, _) => if replace {
            next == (KeyState::MakingDirectory { replace: true }) && action is MakeDirectory
        } else {
            next is Reading && action is ReadFile
        },
        (KeyState::Reading, KeyEvent::ReadResult(read)) => match read {
            Err(f) => if f.kind == IoKind::NotFound {
                next == (KeyState::MakingDirectory { replace: false }) && action is MakeDirectory
            } else {
                next is Done && (action matches KeyAction::Finish(r) && read_outcome(path, read, r))
            },
            Ok(_) => next is Done && (action matches KeyAction::Finish(r) && read_outcome(path, read, r)),
        },
        (KeyState::MakingDirectory { replace }, KeyEvent::DirectoryResult(res)) => match res {
            Err(f) => next is Done && (action matches KeyAction::Finish(Err(e)) && create_error(e, path, f)),
            Ok(()) => {
                ||| (next is Done && (action matches KeyAction::Finish(Err(e)) && random_error(e, path)))
                ||| if replace {
                    next matches KeyState::Writing { key } && fresh_key(key@) && (
                    action matches KeyAction::ReplaceFile { contents } && contents@ == key@.push('\n'))
                } else {
                    &&& (next matches KeyState::Opening { key } && fresh_key(key@))
                    &&& action is CreateNewFile
                }
            },
        },
        (KeyState::Opening { key }, KeyEvent::OpenResult(res)) => match res {
            Ok(()) => {
                &&& (next matches KeyState::Writing { key: k } && k@ == key@)
                &&& (action matches KeyAction::WriteNewFile { contents } && contents@ == key@.push('\n'))
            },
            Err(f) => if f.kind == IoKind::AlreadyExists {
                next is Rereading && action is ReadFile
            } else {
                next is Done && (action matches KeyAction::Finish(Err(e)) && create_error(e, path, f))
            },
        },
        (KeyState::Writing { key }, KeyEvent::WriteResult(res)) => next is Done && match res {
            Ok(()) => (action matches KeyAction::Finish(Ok(k)) && k@ == key@),
            Err(f) => (action matches KeyAction::Finish(Err(e)) && write_error(e, path, f)),
        },
        (KeyState::Rereading, KeyEvent::ReadResult(read)) => next is Done && (
        action matches KeyAction::Finish(r) && read_outcome(path, read, r)),
        _ => false,
    }
}

fn key_with_newline(key: &String) -> (s: String)
    ensures
        s@ == key@.push('\n'),
{
    let mut s = key.clone();
    crate::text::push_char(&mut s, '\n');
    s
}

/// Decides the next step of getting the relay's key file at `path`.
pub fn next_key_step(path: &str, state: KeyState, event: KeyEvent) -> (r: (KeyState, KeyAction))
    requires
        answers(state, event),
    ensures
        key_step(path@, state, event, r.0, r.1),
{
    match (state, event) {
        (KeyState::Begin { replace }, _) => if replace {
            (KeyState::MakingDirectory { replace: true }, KeyAction::MakeDirectory)
        } else {
            (KeyState::Reading, KeyAction::ReadFile)
        },
        (KeyState::Reading, KeyEvent::ReadResult(read)) => {
            let not_found = match &read {
                Err(f) => f.kind == IoKind::NotFound,
                Ok(_) => false,
            };
            if not_found {
                (KeyState::MakingDirectory { replace: false }, KeyAction::MakeDirectory)
            } else {
                (KeyState::Done, KeyAction::Finish(api_key_from_contents(path, &read)))
            }
        },
        (KeyState::MakingDirectory { replace }, KeyEvent::DirectoryResult(res)) => match res {
            Err(f) => (
                KeyState::Done,
                KeyAction::Finish(Err(ApiKeyError::Create { path: String::from_str(path), source: f })),
            ),
            Ok(()) => match generate_api_key() {
                Some(key) => if replace {
                    let contents = key_with_newline(&key);
                    (KeyState::Writing { key }, KeyAction::ReplaceFile { contents })
                } else {
                    (KeyState::Opening { key }, KeyAction::CreateNewFile)
                },
                None => (
                    KeyState::Done,
                    KeyAction::Finish(Err(ApiKeyError::Random { path: String::from_str(path) })),
                ),
            },
        },
        (KeyState::Opening { key }, KeyEvent::OpenResult(res)) => match res {
            Ok(()) => {
                let contents = key_with_newline(&key);
                (KeyState::Writing { key }, KeyAction::WriteNewFile { contents })
            },
            Err(f) => if f.kind == IoKind::AlreadyExists {
                (KeyState::Rereading, KeyAction::ReadFile)
            } else {
                (
                    KeyState::Done,
                    KeyAction::Finish(Err(ApiKeyError::Create { path: String::from_str(path), source: f })),
                )
            },
        },
        (KeyState::Writing { key }, KeyEvent::WriteResult(res)) => match res {
            Ok(()) => (KeyState::Done, KeyAction::Finish(Ok(key))),
            Err(f) => (
                KeyState::Done,
                KeyAction::Finish(Err(ApiKeyError::Write { path: String::from_str(path), source: f })),
            ),
        },
        (KeyState::Rereading, KeyEvent::ReadResult(read)) => (
            KeyState::Done,
            KeyAction::Finish(api_key_from_contents(path, &read)),
        ),
        (_, _) => {
            proof {
                assert(false);
            }
            (KeyState::Done, KeyAction::Finish(Ok(String::new())))
        },
    }
}

} // verus!

verus! {

/// A key file that already holds a key is read and that key is used as it is: no new key is
/// made and nothing is written.
pub proof fn lemma_existing_key_is_reused(
    path: Seq<char>,
    text: String,
    next: KeyState,
    action: KeyAction,
)
    requires
        key_step(path, KeyState::Reading, KeyEvent::ReadResult(Ok(text)), next, action),
        crate::text::trim(text@).len() > 0,
    ensures
        next is Done,
        action matches KeyAction::Finish(Ok(key)) && key@ == crate::text::trim(text@),
{
}

/// A new key is handed out only after it was written: the one step that finishes with a key
/// that the relay made is a successful write of that key.
pub proof fn lemma_new_key_is_stored_first(
    path: Seq<char>,
    state: KeyState,
    event: KeyEvent,
    next: KeyState,
    action: KeyAction,
)
    requires
        key_step(path, state, event, next, action),
        action matches KeyAction::Finish(Ok(_)),
        !(state is Reading || state is Rereading),
    ensures
        state matches KeyState::Writing { key } && event matches KeyEvent::WriteResult(Ok(()))
            && action matches KeyAction::Finish(Ok(k)) && k@ == key@,
{
}

} // verus!

verus! {

/// A key file that holds a fresh key and a newline, as the relay stores it, is read back as
/// exactly that key.
pub proof fn lemma_stored_key_reads_back(
    path: Seq<char>,
    key: Seq<char>,
    read: Result<String, IoFailure>,
    r: Result<String, ApiKeyError>,
)
    requires
        fresh_key(key),
        read matches Ok(t) && t@ == key.push('\n'),
        read_outcome(path, read, r),
    ensures
        r matches Ok(k) && k@ == key,
{
    let t = read->Ok_0@;
    assert(!crate::text::is_space(t[0])) by {
        assert(t[0] == key[0]);
        assert(is_lower_hex(key[0]));
    }
    assert(crate::text::trim_start(t) == t);
    assert(crate::text::is_space(t.last()));
    assert(t.drop_last() =~= key);
    assert(!crate::text::is_space(key.last())) by {
        assert(is_lower_hex(key[key.len() - 1]));
    }
    assert(crate::text::trim_end(key) == key);
    assert(crate::text::trim_end(t) == key);
}

/// Whether every key that a state carries is a fresh key.
pub open spec fn carries_fresh_key(state: KeyState) -> bool {
    match state {
        KeyState::Opening { key } => fresh_key(key@),
        KeyState::Writing { key } => fresh_key(key@),
        _ => true,
    }
}

/// Every step from a state that carries only fresh keys leads to such a state again: the
/// key that the relay writes is always one that it made.
pub proof fn lemma_steps_carry_fresh_keys(
    path: Seq<char>,
    state: KeyState,
    event: KeyEvent,
    next: KeyState,
    action: KeyAction,
)
    requires
        carries_fresh_key(state),
        key_step(path, state, event, next, action),
    ensures
        carries_fresh_key(next),
{
}

/// What a step writes to the key file is read back by a later run as the key that the step
/// goes on to hand out: after a key was stored, a second run, or `show-key`, gets the same key.
pub proof fn lemma_written_key_reads_back(
    path: Seq<char>,
    state: KeyState,
    event: KeyEvent,
    next: KeyState,
    action: KeyAction,
    text: String,
    later_next: KeyState,
    later_action: KeyAction,
)
    requires
        carries_fresh_key(state),
        key_step(path, state, event, next, action),
        (action matches KeyAction::WriteNewFile { contents } && text@ == contents@)
            || (action matches KeyAction::ReplaceFile { contents } && text@ == contents@),
        key_step(path, KeyState::Reading, KeyEvent::ReadResult(Ok(text)), later_next, later_action),
    ensures
        next matches KeyState::Writing { key } && (later_action matches KeyAction::Finish(Ok(k))
            && k@ == key@),
{
    lemma_steps_carry_fresh_keys(path, state, event, next, action);
    let key = next->Writing_key@;
    let read: Result<String, IoFailure> = Ok(text);
    let r = later_action->Finish_0;
    lemma_stored_key_reads_back(path, key, read, r);
}

} // verus!
