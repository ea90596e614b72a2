use vstd::prelude::*;

verus! {

/// An io_uring instance of the `io-uring` crate.
///
/// `io_uring::IoUring` is generic over entry types bounded by the crate's
/// own traits, which cannot be named in a declaration here, so the ring is
/// held in this struct, opaque to verification.  Its field is public so
/// that code outside the library can queue submission entries, which takes
/// `unsafe`.
#[verifier::external_body]
pub struct Ring {
    pub io: io_uring::IoUring,
}

#[verifier::external_type_specification]
#[verifier::external_body]
pub struct ExParameters(io_uring::Parameters);

/// Sets up a ring of `entries` submission entries with `IoUring::new`.
/// Whether the kernel grants it depends on the machine; nothing is stated
/// of the outcome.
#[verifier::external_body]
pub(crate) fn setup_ring(entries: u32) -> std::io::Result<Ring> {
    match io_uring::IoUring::new(entries) {
        Ok(io) => Ok(Ring { io }),
        Err(e) => Err(e),
    }
}

/// The parameters the kernel filled in for `ring` (`IoUring::params`).
#[verifier::external_body]
pub(crate) fn ring_parameters(ring: &Ring) -> &io_uring::Parameters {
    ring.io.params()
}

/// `Parameters::is_feature_fast_poll`: a feature bit the kernel reported.
#[verifier::external_body]
pub(crate) fn feature_fast_poll(parameters: &io_uring::Parameters) -> bool {
    parameters.is_feature_fast_poll()
}

/// `Parameters::is_feature_nodrop`: a feature bit the kernel reported.
#[verifier::external_body]
pub(crate) fn feature_nodrop(parameters: &io_uring::Parameters) -> bool {
    parameters.is_feature_nodrop()
}

/// `Parameters::is_feature_submit_stable`: a feature bit the kernel
/// reported.
#[verifier::external_body]
pub(crate) fn feature_submit_stable(parameters: &io_uring::Parameters) -> bool {
    parameters.is_feature_submit_stable()
}

/// `IoUring::submit`: hands the queued entries to the kernel.  The count
/// or error it returns comes from the kernel; nothing is stated of it.
#[verifier::external_body]
pub(crate) fn ring_submit(ring: &Ring) -> std::io::Result<usize> {
    ring.io.submit()
}

/// `IoUring::submit_and_wait`: hands the queued entries to the kernel and
/// waits for `want` completions.  The outcome comes from the kernel;
/// nothing is stated of it.
#[verifier::external_body]
pub(crate) fn ring_submit_and_wait(ring: &Ring, want: usize) -> std::io::Result<usize> {
    ring.io.submit_and_wait(want)
}

/// `CompletionQueue::next` on the ring's completion queue: the next
/// completion, as its user data and result code, if one is there.  What
/// the kernel completed is not stated.
#[verifier::external_body]
pub(crate) fn next_completion_entry(ring: &mut Ring) -> Option<(u64, i32)> {
    match ring.io.completion().next() {
        Some(entry) => Some((entry.user_data(), entry.result())),
        None => None,
    }
}

} // verus!
