//! The wheel contact rules.
//!
//! A wheel's contact state is worked out anew in every micro-step: the
//! terrain around the wheel is scanned for up to two distinct contact
//! points, two contacts are arbitrated, and each remaining contact is either
//! accepted or lets the wheel go. The geometry behind each answer belongs to
//! the numerical side; the rules that combine the answers are here.

use vstd::prelude::*;

verus! {

/// One of the two places that hold the contact points of a scan.
#[derive(Debug, Copy, Clone, PartialEq, Eq, Structural)]
pub enum Slot {
    First,
    Second,
}

/// How many contact points a scan has found so far.
#[derive(Debug, Copy, Clone, PartialEq, Eq, Structural)]
pub enum Found {
    Nothing,
    One,
    Two,
}

/// What becomes of a contact point that a scan comes across.
#[derive(Debug, Copy, Clone, PartialEq, Eq, Structural)]
pub enum Keep {
    /// It is the first contact.
    AsFirst,
    /// It lies close to the first contact: the first contact moves to the
    /// middle between the two.
    Merged,
    /// It is distinct from the first contact and becomes the second.
    AsSecond,
}

/// The contact state of a wheel.
#[derive(Debug, Copy, Clone, PartialEq, Eq, Structural)]
pub enum Contact {
    /// No contact governs the wheel: it moves freely.
    Free,
    /// The contact in the given slot governs the wheel: it rolls about it.
    Single(Slot),
    /// Both contacts govern the wheel: it is pinned.
    Double,
}

impl Found {
    /// The scan's count after it came across one more contact point, which
    /// lies `apart` from the first contact or close to it.
    pub open spec fn after(self, apart: bool) -> Found {
        match self {
            Found::Nothing => Found::One,
            Found::One => if apart {
                Found::Two
            } else {
                Found::One
            },
            Found::Two => Found::Two,
        }
    }

    /// What becomes of that contact point.
    pub open spec fn keeps(self, apart: bool) -> Keep {
        match self {
            Found::Nothing => Keep::AsFirst,
            _ => if apart {
                Keep::AsSecond
            } else {
                Keep::Merged
            },
        }
    }

    /// The count after a whole series of contact points.
    pub open spec fn after_all(self, apart: Seq<bool>) -> Found
        decreases apart.len(),
    {
        if apart.len() == 0 {
            self
        } else {
            self.after(apart[0]).after_all(apart.drop_first())
        }
    }

    /// Takes in a contact point that the scan came across. `apart` says
    /// whether it lies at least the merge distance from the first contact;
    /// for the first contact point of a scan it has no bearing.
    ///
    /// A scan that has two contacts is over and takes in no more.
    pub fn offer(self, apart: bool) -> (taken: (Found, Keep))
        requires
            self != Found::Two,
        ensures
            taken.0 == self.after(apart),
            taken.1 == self.keeps(apart),
    {
        match self {
            Found::Nothing => (Found::One, Keep::AsFirst),
            _ => if apart {
                (Found::Two, Keep::AsSecond)
            } else {
                (Found::One, Keep::Merged)
            },
        }
    }

    /// The contact state that a finished scan proposes, before arbitration
    /// and acceptance.
    pub fn proposal(self) -> (contact: Contact)
        ensures
            contact == match self {
                Found::Nothing => Contact::Free,
                Found::One => Contact::Single(Slot::First),
                Found::Two => Contact::Double,
            },
    {
        match self {
            Found::Nothing => Contact::Free,
            Found::One => Contact::Single(Slot::First),
            Found::Two => Contact::Double,
        }
    }
}

impl Contact {
    /// What remains of two contacts after the direction tests: the first
    /// contact is dropped if its test fails; otherwise the second is dropped
    /// if its test fails; otherwise both stay.
    pub open spec fn arbitrated(first_holds: bool, second_holds: bool) -> Contact {
        if !first_holds {
            Contact::Single(Slot::Second)
        } else if !second_holds {
            Contact::Single(Slot::First)
        } else {
            Contact::Double
        }
    }

    /// The contact state once each proposed contact has been accepted or
    /// has let the wheel go.
    pub open spec fn resolved(self, first_accepted: bool, second_accepted: bool) -> Contact {
        match self {
            Contact::Free => Contact::Free,
            Contact::Single(Slot::First) => if first_accepted {
                self
            } else {
                Contact::Free
            },
            Contact::Single(Slot::Second) => if second_accepted {
                self
            } else {
                Contact::Free
            },
            Contact::Double => if first_accepted && second_accepted {
                Contact::Double
            } else if first_accepted {
                Contact::Single(Slot::First)
            } else if second_accepted {
                Contact::Single(Slot::Second)
            } else {
                Contact::Free
            },
        }
    }

    /// Whether the contact in `slot` is among those of this state.
    pub open spec fn involves(self, slot: Slot) -> bool {
        self == Contact::Double || self == Contact::Single(slot)
    }

    /// Arbitrates between two distinct contacts. `first_holds` and
    /// `second_holds` are the outcomes of the direction test of the first
    /// contact against the second and of the second against the first.
    pub fn arbitrate(first_holds: bool, second_holds: bool) -> (contact: Contact)
        ensures
            contact == Contact::arbitrated(first_holds, second_holds),
    {
        if !first_holds {
            Contact::Single(Slot::Second)
        } else if !second_holds {
            Contact::Single(Slot::First)
        } else {
            Contact::Double
        }
    }

    /// Settles the contact state from the acceptance of each proposed
    /// contact. The answer for a slot that the proposal does not involve has
    /// no bearing.
    pub fn resolve(self, first_accepted: bool, second_accepted: bool) -> (contact: Contact)
        ensures
            contact == self.resolved(first_accepted, second_accepted),
    {
        match self {
            Contact::Free => Contact::Free,
            Contact::Single(Slot::First) => if first_accepted {
                self
            } else {
                Contact::Free
            },
            Contact::Single(Slot::Second) => if second_accepted {
                self
            } else {
                Contact::Free
            },
            Contact::Double => if first_accepted && second_accepted {
                Contact::Double
            } else if first_accepted {
                Contact::Single(Slot::First)
            } else if second_accepted {
                Contact::Single(Slot::Second)
            } else {
                Contact::Free
            },
        }
    }

    /// Whether the contact in `slot` is among those of this state. Each
    /// contact of a proposal is asked for its acceptance, the second before
    /// the first.
    pub fn asks(self, slot: Slot) -> (asked: bool)
        ensures
            asked == self.involves(slot),
    {
        match (self, slot) {
            (Contact::Double, _) => true,
            (Contact::Single(Slot::First), Slot::First) => true,
            (Contact::Single(Slot::Second), Slot::Second) => true,
            _ => false,
        }
    }

    /// Whether the wheel is pinned: its velocity and angular velocity are
    /// then set to zero for this micro-step.
    pub fn is_pinned(self) -> (pinned: bool)
        ensures
            pinned == (self == Contact::Double),
    {
        match self {
            Contact::Double => true,
            _ => false,
        }
    }
}

/// A wheel is pinned exactly when two contacts were proposed and both were
/// accepted.
pub proof fn lemma_pinned_needs_both(proposal: Contact, first_accepted: bool, second_accepted: bool)
    ensures
        proposal.resolved(first_accepted, second_accepted) == Contact::Double <==> (proposal
            == Contact::Double && first_accepted && second_accepted),
{
}

/// Resolution never brings in a contact: whatever governs the wheel in the
/// end was proposed and was accepted.
pub proof fn lemma_resolved_was_accepted(
    proposal: Contact,
    first_accepted: bool,
    second_accepted: bool,
    slot: Slot,
)
    requires
        proposal.resolved(first_accepted, second_accepted).involves(slot),
    ensures
        proposal.involves(slot),
        slot == Slot::First ==> first_accepted,
        slot == Slot::Second ==> second_accepted,
{
}

/// Arbitration always leaves at least one of the two contacts.
pub proof fn lemma_arbitration_keeps_a_contact(first_holds: bool, second_holds: bool)
    ensures
        Contact::arbitrated(first_holds, second_holds) != Contact::Free,
        Contact::arbitrated(first_holds, second_holds) == Contact::Double <==> (first_holds
            && second_holds),
{
}

/// A scan never holds more than two contacts, and it holds two exactly
/// from the first contact point on that lies apart from the first contact.
pub proof fn lemma_scan_counts(apart: Seq<bool>)
    ensures
        apart.len() == 0 ==> Found::Nothing.after_all(apart) == Found::Nothing,
        apart.len() > 0 ==> (Found::Nothing.after_all(apart) == Found::Two <==> exists|i: int|
            1 <= i < apart.len() && apart[i]),
        apart.len() > 0 ==> Found::Nothing.after_all(apart) != Found::Nothing,
{
    if apart.len() > 0 {
        lemma_scan_from_one(apart.drop_first());
        if Found::Nothing.after_all(apart) == Found::Two {
            let i = choose|i: int| 0 <= i < apart.drop_first().len() && apart.drop_first()[i];
            assert(apart[i + 1]);
        }
        if exists|i: int| 1 <= i < apart.len() && apart[i] {
            let i = choose|i: int| 1 <= i < apart.len() && apart[i];
            assert(apart.drop_first()[i - 1]);
        }
    }
}

proof fn lemma_scan_from_two(apart: Seq<bool>)
    ensures
        Found::Two.after_all(apart) == Found::Two,
    decreases apart.len(),
{
    if apart.len() > 0 {
        lemma_scan_from_two(apart.drop_first());
    }
}

proof fn lemma_scan_from_one(apart: Seq<bool>)
    ensures
        Found::One.after_all(apart) != Found::Nothing,
        Found::One.after_all(apart) == Found::Two <==> exists|i: int|
            0 <= i < apart.len() && apart[i],
    decreases apart.len(),
{
    if apart.len() > 0 {
        let rest = apart.drop_first();
        if apart[0] {
            lemma_scan_from_two(rest);
        } else {
            lemma_scan_from_one(rest);
            if Found::One.after_all(apart) == Found::Two {
                let i = choose|i: int| 0 <= i < rest.len() && rest[i];
                assert(apart[i + 1]);
            }
            if exists|i: int| 0 <= i < apart.len() && apart[i] {
                let i = choose|i: int| 0 <= i < apart.len() && apart[i];
                assert(rest[i - 1]);
            }
        }
    }
}

} // verus!
