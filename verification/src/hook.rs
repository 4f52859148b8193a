//! The installation slot: a write-once cell that binds at most one handler
//! for the rest of the process.

use vstd::prelude::*;
use crate::line::Handler;

verus! {

/// The failure of an install attempt: the slot was already occupied, by this
/// library or by a competing renderer, and stays as it was.
#[derive(Debug)]
pub struct InstallError;

/// The state of the slot after one claim with the given separator: an empty
/// slot becomes occupied by it; an occupied slot is left exactly as it was.
pub open spec fn slot_after_claim(state: Option<Seq<char>>, sep: Seq<char>) -> Option<Seq<char>> {
    match state {
        Option::None => Option::Some(sep),
        Option::Some(_) => state,
    }
}

/// A claim on the slot succeeds exactly when the slot is still empty.
pub open spec fn claim_succeeds(state: Option<Seq<char>>) -> bool {
    state is None
}

/// Install-once: starting from the empty slot, a first install succeeds, a
/// second install fails whatever separator it brings, and the separator in
/// effect after both is the one from the first install.
pub proof fn lemma_install_once(sep1: Seq<char>, sep2: Seq<char>)
    ensures
        claim_succeeds(Option::<Seq<char>>::None),
        !claim_succeeds(slot_after_claim(Option::<Seq<char>>::None, sep1)),
        slot_after_claim(slot_after_claim(Option::<Seq<char>>::None, sep1), sep2)
            == Option::Some(sep1),
{
}

/// A write-once slot holding at most one handler. Once occupied it can never
/// be replaced or cleared: later claims fail and leave it untouched.
pub struct InstallSlot {
    handler: Option<Handler>,
}

impl InstallSlot {
    /// The separator of the installed handler, if one is installed.
    pub closed spec fn state(&self) -> Option<Seq<char>> {
        match self.handler {
            Option::None => Option::None,
            Option::Some(h) => Option::Some(h.sep()),
        }
    }

    /// A fresh slot: nothing installed yet.
    pub fn empty() -> (slot: InstallSlot)
        ensures
            slot.state() is None,
    {
        InstallSlot { handler: Option::None }
    }

    /// Attempt to claim the slot with a handler that uses the given
    /// separator. Succeeds exactly when the slot is still empty; a failed
    /// claim is a no-op.
    pub fn claim(&mut self, separator: &'static str) -> (r: Result<(), InstallError>)
        ensures
            final(self).state() == slot_after_claim(old(self).state(), separator@),
            r is Ok <==> claim_succeeds(old(self).state()),
    {
        if self.handler.is_none() {
            self.handler = Option::Some(Handler::new(separator));
            Result::Ok(())
        } else {
            Result::Err(InstallError)
        }
    }

    /// The installed handler, to render through the slot.
    pub fn handler(&self) -> (h: Option<&Handler>)
        ensures
            match h {
                Option::Some(inner) => self.state() == Option::Some(inner.sep()),
                Option::None => self.state() is None,
            },
    {
        self.handler.as_ref()
    }
}

/// Install a handler with the default separator `": "` into the given slot.
/// Succeeds exactly when the slot was still empty; a failed install leaves
/// the earlier installation in effect.
pub fn install(slot: &mut InstallSlot) -> (r: Result<(), InstallError>)
    ensures
        final(slot).state() == slot_after_claim(old(slot).state(), ": "@),
        r is Ok <==> claim_succeeds(old(slot).state()),
{
    install_custom(slot, ": ")
}

/// Install a handler with the given separator into the given slot. Succeeds
/// exactly when the slot was still empty; a failed install leaves the
/// earlier installation in effect.
pub fn install_custom(slot: &mut InstallSlot, separator: &'static str) -> (r: Result<
    (),
    InstallError,
>)
    ensures
        final(slot).state() == slot_after_claim(old(slot).state(), separator@),
        r is Ok <==> claim_succeeds(old(slot).state()),
{
    slot.claim(separator)
}

} // verus!
