//! What a finished run of the tool means for the availability probe and for
//! encrypting and decrypting a buffer.

use vstd::prelude::*;
use vstd::utf8::{decode_utf8, valid_utf8};
use crate::foreign::{decode_lossy, utf8_lossy};
use crate::process::Run;

verus! {

/// The tool is installed if the version query started and exited with
/// status zero.
pub open spec fn tool_available(run: Run) -> bool {
    match run {
        Run::Exited(out) => out.success,
        _ => false,
    }
}

/// The result of piping a buffer through the tool: what it wrote to standard
/// output if it exited with status zero, else a message. The message is the
/// operating system's description if the run broke off, and the leniently
/// decoded standard error if the tool exited with another status.
pub open spec fn buffer_result(run: Run) -> Result<Seq<u8>, Seq<char>> {
    match run {
        Run::SpawnFailed(message) => Err(message@),
        Run::WriteFailed(message) => Err(message@),
        Run::WaitFailed(message) => Err(message@),
        Run::Exited(out) => if out.success {
            Ok(out.stdout@)
        } else {
            Err(utf8_lossy(out.stderr@))
        },
    }
}

/// The tool exited with another status than zero, and what it wrote to
/// standard error is valid UTF-8.
pub open spec fn failure_text_is_valid(run: Run) -> bool {
    run matches Run::Exited(out) && !out.success && valid_utf8(out.stderr@)
}

/// The tool exited with another status than zero, and wrote something to
/// standard error.
pub open spec fn failed_with_diagnostics(run: Run) -> bool {
    run matches Run::Exited(out) && !out.success && out.stderr@.len() > 0
}

/// The bytes or the message that a result holds.
pub open spec fn result_view(r: Result<Vec<u8>, String>) -> Result<Seq<u8>, Seq<char>> {
    match r {
        Ok(bytes) => Ok(bytes@),
        Err(message) => Err(message@),
    }
}

/// Whether the tool is installed, judged from a run of its version query.
///
/// Every failure of the run gives `false`.
pub fn check_gpg_installed(run: &Run) -> (r: bool)
    ensures
        r == tool_available(*run),
{
    match run {
        Run::Exited(out) => out.success,
        _ => false,
    }
}

/// Turns a run that piped a buffer through the tool into the output or the
/// error of the operation.
pub fn finish_buffer(run: Run) -> (r: Result<Vec<u8>, String>)
    ensures
        result_view(r) == buffer_result(run),
        failure_text_is_valid(run) ==> result_view(r) == Err::<Seq<u8>, Seq<char>>(
            decode_utf8(run->Exited_0.stderr@),
        ),
        failed_with_diagnostics(run) ==> r is Err && r->Err_0@.len() > 0,
{
    match run {
        Run::SpawnFailed(message) => Err(message),
        Run::WriteFailed(message) => Err(message),
        Run::WaitFailed(message) => Err(message),
        Run::Exited(out) => {
            if out.success {
                Ok(out.stdout)
            } else {
                Err(decode_lossy(out.stderr.as_slice()))
            }
        },
    }
}

/// The ciphertext, or the error, of a run that was started to encrypt a
/// buffer.
pub fn gpg_encrypt_buffer(run: Run) -> (r: Result<Vec<u8>, String>)
    ensures
        result_view(r) == buffer_result(run),
        failure_text_is_valid(run) ==> result_view(r) == Err::<Seq<u8>, Seq<char>>(
            decode_utf8(run->Exited_0.stderr@),
        ),
        failed_with_diagnostics(run) ==> r is Err && r->Err_0@.len() > 0,
{
    finish_buffer(run)
}

/// The plaintext, or the error, of a run that was started to decrypt a
/// buffer.
pub fn gpg_decrypt_buffer(run: Run) -> (r: Result<Vec<u8>, String>)
    ensures
        result_view(r) == buffer_result(run),
        failure_text_is_valid(run) ==> result_view(r) == Err::<Seq<u8>, Seq<char>>(
            decode_utf8(run->Exited_0.stderr@),
        ),
        failed_with_diagnostics(run) ==> r is Err && r->Err_0@.len() > 0,
{
    finish_buffer(run)
}

/// A run that did not end with exit status zero gives an error, never a
/// buffer.
pub proof fn lemma_failure_gives_error(run: Run)
    requires
        !tool_available(run),
    ensures
        buffer_result(run) is Err,
{
}

/// A buffer comes back only from a run that exited with status zero, and it
/// is the whole of what the tool wrote to standard output.
pub proof fn lemma_buffer_is_whole_output(run: Run)
    ensures
        buffer_result(run) is Ok <==> tool_available(run),
        buffer_result(run) is Ok ==> run is Exited && buffer_result(run) == Ok::<
            Seq<u8>,
            Seq<char>,
        >(run->Exited_0.stdout@),
{
}

} // verus!
