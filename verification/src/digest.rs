//! The digest streamer: a SHA-256 content digest taken chunk by chunk, and
//! rendered as an integrity string.

use vstd::prelude::*;
use ssri::{Algorithm, IntegrityOpts};
use crate::model::TransferError;

verus! {

/// `ssri::IntegrityOpts`, as a type whose inside is not looked into: its
/// state is spoken of through `absorbed` and `hashes_sha256_only`.
#[verifier::external_type_specification]
#[verifier::external_body]
pub struct ExIntegrityOpts(IntegrityOpts);

/// The bytes that an `IntegrityOpts` has been given so far, in order.
pub uninterp spec fn absorbed(opts: IntegrityOpts) -> Seq<u8>;

/// Whether SHA-256 is the one algorithm that an `IntegrityOpts` was set up with.
pub uninterp spec fn hashes_sha256_only(opts: IntegrityOpts) -> bool;

/// The integrity string of `data` under SHA-256: the text `sha256-` and the
/// padded standard base64 form of the digest.
pub uninterp spec fn sha256_integrity(data: Seq<u8>) -> Seq<char>;

/// A character of the standard base64 alphabet.
pub open spec fn is_base64_char(c: char) -> bool {
    let code = c as u32;
    ||| 0x41 <= code <= 0x5a
    ||| 0x61 <= code <= 0x7a
    ||| 0x30 <= code <= 0x39
    ||| c == '+'
    ||| c == '/'
}

/// The shape of a SHA-256 integrity string: the tag `sha256-`, then the 32
/// digest bytes as 43 base64 characters and one `=` of padding.
pub open spec fn is_sha256_tagged(text: Seq<char>) -> bool {
    &&& text.len() == 51
    &&& text.take(7) == seq!['s', 'h', 'a', '2', '5', '6', '-']
    &&& forall|i: int| 7 <= i < 50 ==> is_base64_char(#[trigger] text[i])
    &&& text[50] == '='
}

/// `IntegrityOpts::new` followed by `IntegrityOpts::algorithm` with
/// `Algorithm::Sha256`: an accumulator for SHA-256 alone that has been given
/// no byte yet.
#[verifier::external_body]
fn opts_sha256() -> (opts: IntegrityOpts)
    ensures
        hashes_sha256_only(opts),
        absorbed(opts) == Seq::<u8>::empty(),
{
    IntegrityOpts::new().algorithm(Algorithm::Sha256)
}

/// `IntegrityOpts::input`: the bytes of `chunk` follow those given before;
/// the algorithms stay as they were. The call returns; it does not unwind.
#[verifier::external_body]
fn opts_input(opts: &mut IntegrityOpts, chunk: &[u8])
    ensures
        absorbed(*final(opts)) == absorbed(*old(opts)) + chunk@,
        hashes_sha256_only(*final(opts)) == hashes_sha256_only(*old(opts)),
    no_unwind
{
    opts.input(chunk);
}

/// `IntegrityOpts::result`, displayed: for an accumulator of SHA-256 alone,
/// the one hash of the result is written as the algorithm's name in lower
/// case, a hyphen and the padded standard base64 form of the 32 digest bytes.
/// That text is the integrity string of all bytes given, and it has the
/// shape `is_sha256_tagged`.
#[verifier::external_body]
fn opts_render(opts: IntegrityOpts) -> (text: String)
    requires
        hashes_sha256_only(opts),
    ensures
        text@ == sha256_integrity(absorbed(opts)),
        is_sha256_tagged(text@),
{
    format!("{}", opts.result())
}

/// A running SHA-256 digest of a body that arrives in chunks. Only the
/// digest state is kept, never the chunks.
pub struct DigestStreamer {
    opts: IntegrityOpts,
}

impl View for DigestStreamer {
    type V = Seq<u8>;

    /// All bytes taken in so far.
    closed spec fn view(&self) -> Seq<u8> {
        absorbed(self.opts)
    }
}

impl DigestStreamer {
    #[verifier::type_invariant]
    spec fn sha256_only(self) -> bool {
        hashes_sha256_only(self.opts)
    }

    /// A streamer that has taken in nothing.
    pub fn new() -> (streamer: DigestStreamer)
        ensures
            streamer@ == Seq::<u8>::empty(),
    {
        DigestStreamer { opts: opts_sha256() }
    }

    /// Takes in the next chunk of the body.
    pub fn update(&mut self, chunk: &[u8])
        ensures
            final(self)@ == old(self)@ + chunk@,
    {
        proof {
            use_type_invariant(&*self);
        }
        opts_input(&mut self.opts, chunk);
    }

    /// The integrity string of everything taken in.
    pub fn finish(self) -> (integrity: String)
        ensures
            integrity@ == sha256_integrity(self@),
            is_sha256_tagged(integrity@),
    {
        proof {
            use_type_invariant(&self);
        }
        opts_render(self.opts)
    }
}

/// What reading the body of a download gave: its next chunk, its end, or a
/// failure of the transfer.
pub enum BodyEvent<'a> {
    Chunk(&'a [u8]),
    End,
    Failed(TransferError),
}

/// Where a download stands after an event.
pub enum StreamStep {
    /// More of the body is to be read.
    Reading(DigestStreamer),
    /// The body ended; this is its integrity string.
    Finished(String),
    /// The transfer failed; no digest was produced.
    Failed(TransferError),
}

/// One step of streaming a body through the digest: a chunk is taken in and
/// reading goes on, the end of the body yields the integrity string of all
/// that was read, and a failed transfer ends the download with its error.
pub fn advance(streamer: DigestStreamer, event: BodyEvent<'_>) -> (step: StreamStep)
    ensures
        match event {
            BodyEvent::Chunk(bytes) => step matches StreamStep::Reading(next) && next@
                == streamer@ + bytes@,
            BodyEvent::End => step matches StreamStep::Finished(integrity) && integrity@
                == sha256_integrity(streamer@) && is_sha256_tagged(integrity@),
            BodyEvent::Failed(error) => step == StreamStep::Failed(error),
        },
{
    match event {
        BodyEvent::Chunk(bytes) => {
            let mut streamer = streamer;
            streamer.update(bytes);
            StreamStep::Reading(streamer)
        },
        BodyEvent::End => StreamStep::Finished(streamer.finish()),
        BodyEvent::Failed(error) => StreamStep::Failed(error),
    }
}

} // verus!
