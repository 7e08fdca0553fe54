//! Change detection: should the view be computed again?

use vstd::prelude::*;

verus! {

/// The parameters a view is computed from. Real values are held as the bit
/// patterns of their 64-bit floating-point encoding, so that two values are
/// the same exactly when their encodings are.
#[derive(Clone, Copy, PartialEq, Eq, Structural, Debug)]
pub struct Parameters {
    pub zoom: u64,
    pub position_x: u64,
    pub position_y: u64,
    pub iterations: usize,
    pub threshold: u64,
    pub constant_re: u64,
    pub constant_im: u64,
    /// Fractal family or method, by number.
    pub selector: usize,
}

/// The current parameters, and those of the last computation, if any.
pub struct ChangeGate {
    pub current: Parameters,
    pub last: Option<Parameters>,
}

impl ChangeGate {
    /// Some tracked parameter differs from the last computation, or there was none.
    pub open spec fn is_dirty(&self) -> bool {
        self.last != Some(self.current)
    }

    /// State once asked: the current parameters are recorded as the last ones.
    pub open spec fn after_check(&self) -> ChangeGate {
        ChangeGate { current: self.current, last: Some(self.current) }
    }

    /// A gate tracking `current`, with nothing computed yet.
    pub fn new(current: Parameters) -> (r: ChangeGate)
        ensures
            r.current == current,
            r.last is None,
    {
        ChangeGate { current, last: None }
    }

    /// Whether the view must be computed again; the current parameters become
    /// the reference for the next check.
    pub fn is_state_updated(&mut self) -> (r: bool)
        ensures
            r == old(self).is_dirty(),
            *final(self) == old(self).after_check(),
    {
        let updated = match self.last {
            Some(p) => p != self.current,
            None => true,
        };
        self.last = Some(self.current);
        updated
    }
}

/// A new gate reports a change.
pub proof fn lemma_new_gate_is_dirty(current: Parameters)
    ensures
        (ChangeGate { current, last: None }).is_dirty(),
{
}

/// a check right after a check reports no change.
pub proof fn lemma_check_then_clean(g: ChangeGate)
    ensures
        !g.after_check().is_dirty(),
{
}

/// After a check, changing the parameters makes the next check report a
/// change, and the check after that report none.
pub proof fn lemma_change_reported_once(g: ChangeGate, changed: Parameters)
    requires
        changed != g.current,
    ensures
        (ChangeGate { current: changed, last: g.after_check().last }).is_dirty(),
        !(ChangeGate { current: changed, last: g.after_check().last }).after_check().is_dirty(),
{
}

} // verus!
