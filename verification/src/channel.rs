//! The transcript from which the verifier's random elements are drawn.

use crate::fields::qm31::SecureField;
use vstd::prelude::*;

verus! {

/// A Fiat-Shamir transcript: what the prover commits to is mixed in, and
/// the verifier's random elements are drawn from what was mixed in so far.
///
/// A transcript is deterministic: what a draw gives, and what a draw or a
/// mix leaves of the transcript, follows from what the transcript holds and
/// from what is asked for or mixed in. What that is, is for an
/// implementation to say.
pub trait Channel: Sized {
    /// The elements that a draw of `n_felts` elements gives from the
    /// transcript as it is.
    open spec fn felts_drawn(&self, n_felts: usize) -> Seq<SecureField> {
        arbitrary()
    }

    /// The transcript after a draw of `n_felts` elements from the
    /// transcript as it is.
    open spec fn after_draw(&self, n_felts: usize) -> Self {
        arbitrary()
    }

    /// The transcript after `felts` were mixed into the transcript as it
    /// is.
    open spec fn after_mix(&self, felts: Seq<SecureField>) -> Self {
        arbitrary()
    }

    /// Mixes field elements into the transcript.
    fn mix_felts(&mut self, felts: &[SecureField])
        ensures
            *final(self) == old(self).after_mix(felts@),
    ;

    /// Draws `n_felts` random elements.
    fn draw_felts(&mut self, n_felts: usize) -> (r: Vec<SecureField>)
        ensures
            r@.len() == n_felts,
            r@ == old(self).felts_drawn(n_felts),
            *final(self) == old(self).after_draw(n_felts),
    ;
}

} // verus!
