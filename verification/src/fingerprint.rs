//! The content hash of the first bytes of a file or stream.

use vstd::string::StringExecFns;
use vstd::prelude::*;

verus! {

/// The number of leading bytes that a fingerprint covers.
pub const MAX_SIZE: usize = 16 * 1024 * 1024;

/// A running MD5 computation of the `md5` crate, which takes its input
/// piece by piece.
#[verifier::external_body]
pub struct Md5State {
    inner: md5::Md5,
}

/// The MD5 digest of `data`.
pub uninterp spec fn md5_digest(data: Seq<u8>) -> Seq<u8>;

/// The bytes that a running computation has taken in, in their order.
pub uninterp spec fn fed(state: Md5State) -> Seq<u8>;

/// `Digest::new` for `Md5`: a computation that has taken in nothing.
#[verifier::external_body]
fn md5_new() -> (state: Md5State)
    ensures
        fed(state) == Seq::<u8>::empty(),
{
    Md5State { inner: <md5::Md5 as md5::Digest>::new() }
}

/// `Digest::update` for `Md5`: the computation takes in `data` after what
/// it had taken in before.
#[verifier::external_body]
fn md5_update(state: &mut Md5State, data: &[u8])
    ensures
        fed(*final(state)) == fed(*old(state)) + data@,
{
    md5::Digest::update(&mut state.inner, data);
}

/// `Digest::finalize` for `Md5`: the digest of all that the computation
/// has taken in, which is sixteen bytes long.
#[verifier::external_body]
fn md5_finalize(state: Md5State) -> (digest: Vec<u8>)
    ensures
        digest@ == md5_digest(fed(state)),
        digest@.len() == 16,
{
    md5::Digest::finalize(state.inner).to_vec()
}

/// The character that writes the hexadecimal digit `nibble` in lower case.
pub open spec fn hex_digit(nibble: int) -> char {
    if nibble < 10 {
        ('0' as int + nibble) as char
    } else {
        ('a' as int + nibble - 10) as char
    }
}

/// The bytes of `data` written as two hexadecimal digits each, in lower
/// case.
pub open spec fn hex_text(data: Seq<u8>) -> Seq<char>
    decreases data.len(),
{
    if data.len() == 0 {
        Seq::empty()
    } else {
        hex_text(data.drop_last()).push(hex_digit(data.last() as int / 16)).push(
            hex_digit(data.last() as int % 16),
        )
    }
}

/// Two digits stand for each byte.
pub proof fn lemma_hex_text_len(data: Seq<u8>)
    ensures
        hex_text(data).len() == 2 * data.len(),
    decreases data.len(),
{
    if data.len() > 0 {
        lemma_hex_text_len(data.drop_last());
    }
}

/// `hex::encode`: each byte written as two hexadecimal digits, in lower
/// case.
#[verifier::external_body]
fn hex_encode(data: &Vec<u8>) -> (text: String)
    ensures
        text@ == hex_text(data@),
{
    hex::encode(data)
}

/// Why content has no fingerprint.
#[derive(Clone, Copy, Debug, PartialEq, Eq, Structural)]
pub enum FingerprintError {
    /// The content is shorter than the window.
    InsufficientContent,
}

/// The fingerprint of content that begins with `content`: the digest, in
/// hexadecimal, of its first `MAX_SIZE` bytes, where it has that many.
pub open spec fn fingerprint_of(content: Seq<u8>) -> Result<Seq<char>, FingerprintError> {
    if content.len() < MAX_SIZE {
        Err(FingerprintError::InsufficientContent)
    } else {
        Ok(hex_text(md5_digest(content.take(MAX_SIZE as int))))
    }
}

/// A fingerprint in the making, of content that arrives in pieces.
pub struct StreamHash {
    state: Md5State,
    downloaded: usize,
    content: Ghost<Seq<u8>>,
}

impl StreamHash {
    /// All that has arrived so far.
    pub closed spec fn content(&self) -> Seq<u8> {
        self.content@
    }

    #[verifier::type_invariant]
    spec fn well_formed(self) -> bool {
        &&& self.downloaded == if self.content@.len() < MAX_SIZE {
            self.content@.len()
        } else {
            MAX_SIZE as nat
        }
        &&& fed(self.state) == if self.content@.len() < MAX_SIZE {
            self.content@
        } else {
            self.content@.take(MAX_SIZE as int)
        }
    }

    /// Whether the window is filled.
    pub open spec fn is_filled(&self) -> bool {
        self.content().len() >= MAX_SIZE
    }

    /// A fingerprint of which no content has arrived.
    pub fn new() -> (hash: Self)
        ensures
            hash.content() == Seq::<u8>::empty(),
    {
        StreamHash { state: md5_new(), downloaded: 0, content: Ghost(Seq::empty()) }
    }

    fn advance(self, chunk: &[u8]) -> (next: Self)
        ensures
            next.content() == self.content() + chunk@,
    {
        proof {
            use_type_invariant(&self);
        }
        let StreamHash { state, downloaded, content } = self;
        let mut state: Md5State = state;
        let room: usize = MAX_SIZE - downloaded;
        if chunk.len() > room {
            if room > 0 {
                md5_update(&mut state, vstd::slice::slice_subrange(chunk, 0, room));
            }
            assert(fed(state) =~= (content@ + chunk@).take(MAX_SIZE as int));
            StreamHash { state, downloaded: MAX_SIZE, content: Ghost(content@ + chunk@) }
        } else {
            md5_update(&mut state, chunk);
            assert(content@.len() + chunk@.len() == MAX_SIZE ==> (content@ + chunk@).take(
                MAX_SIZE as int,
            ) =~= content@ + chunk@);
            StreamHash {
                state,
                downloaded: downloaded + chunk.len(),
                content: Ghost(content@ + chunk@),
            }
        }
    }

    /// Takes in the next piece of the content, as far as the window
    /// reaches, and says whether the window is filled, so that no more
    /// content has to arrive.
    pub fn feed(&mut self, chunk: &[u8]) -> (filled: bool)
        ensures
            final(self).content() == old(self).content() + chunk@,
            filled == final(self).is_filled(),
    {
        let mut taken: StreamHash = StreamHash::new();
        core::mem::swap(self, &mut taken);
        let next: StreamHash = taken.advance(chunk);
        proof {
            use_type_invariant(&next);
        }
        let filled: bool = next.downloaded >= MAX_SIZE;
        *self = next;
        filled
    }

    /// The fingerprint of the content that has arrived: thirty-two
    /// hexadecimal digits.
    pub fn finish(self) -> (fingerprint: Result<String, FingerprintError>)
        ensures
            match fingerprint {
                Ok(text) => fingerprint_of(self.content()) == Ok::<Seq<char>, FingerprintError>(
                    text@,
                ) && text@.len() == 32,
                Err(err) => fingerprint_of(self.content()) == Err::<Seq<char>, FingerprintError>(
                    err,
                ),
            },
    {
        proof {
            use_type_invariant(&self);
        }
        if self.downloaded < MAX_SIZE {
            return Err(FingerprintError::InsufficientContent);
        }
        let digest: Vec<u8> = md5_finalize(self.state);
        proof {
            lemma_hex_text_len(digest@);
        }
        Ok(hex_encode(&digest))
    }
}

/// The fingerprint of content of which `prefix` holds the beginning, as
/// far as it was read: thirty-two hexadecimal digits.
pub fn fingerprint(prefix: &[u8]) -> (fingerprint: Result<String, FingerprintError>)
    ensures
        match fingerprint {
            Ok(text) => fingerprint_of(prefix@) == Ok::<Seq<char>, FingerprintError>(text@)
                && text@.len() == 32,
            Err(err) => fingerprint_of(prefix@) == Err::<Seq<char>, FingerprintError>(err),
        },
{
    let mut hash: StreamHash = StreamHash::new();
    hash.feed(prefix);
    assert(Seq::<u8>::empty() + prefix@ == prefix@);
    hash.finish()
}

/// The fingerprint depends on the first `MAX_SIZE` bytes alone: contents
/// that agree on them have the same, and content that has fewer has none.
pub proof fn lemma_fingerprint_of_window(one: Seq<u8>, other: Seq<u8>)
    requires
        one.len() >= MAX_SIZE,
        other.len() >= MAX_SIZE,
        one.take(MAX_SIZE as int) == other.take(MAX_SIZE as int),
    ensures
        fingerprint_of(one) == fingerprint_of(other),
        fingerprint_of(one) is Ok,
{
}

/// Content shorter than the window has no fingerprint.
pub proof fn lemma_short_content_has_no_fingerprint(content: Seq<u8>)
    requires
        content.len() < MAX_SIZE,
    ensures
        fingerprint_of(content) == Err::<Seq<char>, FingerprintError>(
            FingerprintError::InsufficientContent,
        ),
{
}


/// The final component of the path `path`, as `Path::file_name` has it;
/// nothing where the path ends in no name.
pub uninterp spec fn final_component_of(path: Seq<char>) -> Option<Seq<char>>;

/// `Path::file_name`, read as text: the final component of the path,
/// where the path has one. It depends on the path's text alone.
#[verifier::external_body]
fn final_component(path: &str) -> (name: Option<String>)
    ensures
        match name {
            Some(found) => final_component_of(path@) == Some(found@),
            None => final_component_of(path@) is None,
        },
{
    std::path::Path::new(path)
        .file_name()
        .and_then(|name| name.to_str())
        .map(|name| name.to_string())
}

/// The name under which a file is known where its path gives none.
pub open spec fn default_file_name() -> Seq<char> {
    "unknown.mp4"@
}

/// The name that a file goes by: the final component of its path, or a
/// default where the path has none.
pub open spec fn file_name_of(component: Option<Seq<char>>) -> Seq<char> {
    match component {
        Some(name) => name,
        None => default_file_name(),
    }
}

/// The name that a file goes by, given the final component of its path.
pub fn name_or_default(component: Option<String>) -> (name: String)
    ensures
        name@ == file_name_of(
            match component {
                Some(found) => Some(found@),
                None => None,
            },
        ),
{
    match component {
        Some(found) => found,
        None => String::from_str("unknown.mp4"),
    }
}

/// The name that the file at `path` goes by: the final component of the
/// path, or a default where the path has none.
pub fn get_localfile_name(path: &str) -> (name: String)
    ensures
        name@ == file_name_of(final_component_of(path@)),
{
    name_or_default(final_component(path))
}

} // verus!
