//! Dice value types: a single die face, a player's hand, and the
//! commitment/reveal containers used by the commit-reveal protocol.

use vstd::prelude::*;

verus! {

/// The face value of a single die (1-6).
#[derive(Clone, Copy, Debug, PartialEq, Eq, Hash, Structural)]
pub struct DiceValue(pub u8);

impl DiceValue {
    /// A face is only meaningful in the range 1..=6.
    pub open spec fn is_valid(self) -> bool {
        1 <= self.0 <= 6
    }

    pub open spec fn spec_value(self) -> u8 {
        self.0
    }

    /// The lowest face is wild: it counts toward any other face.
    pub open spec fn spec_is_wild(self) -> bool {
        self.0 == 1
    }

    pub fn new(value: u8) -> (r: Option<Self>)
        ensures
            1 <= value <= 6 ==> r == Some(DiceValue(value)),
            !(1 <= value <= 6) ==> r is None,
    {
        if 1 <= value && value <= 6 {
            Some(DiceValue(value))
        } else {
            None
        }
    }

    #[verifier::when_used_as_spec(spec_value)]
    pub fn value(self) -> (r: u8)
        ensures
            r == self.spec_value(),
    {
        self.0
    }

    /// In liar's dice, 1s are wild (count as any value).
    #[verifier::when_used_as_spec(spec_is_wild)]
    pub fn is_wild(self) -> (r: bool)
        ensures
            r == self.spec_is_wild(),
    {
        self.0 == 1
    }
}

impl Default for DiceValue {
    fn default() -> (r: Self)
        ensures
            r == DiceValue(1u8),
    {
        DiceValue(1)
    }
}

/// Does die `d` count toward `face`, optionally honouring wilds?
/// A wild die counts toward every face except the wild face itself.
pub open spec fn die_matches(d: DiceValue, face: DiceValue, wilds_count: bool) -> bool {
    d.0 == face.0 || (wilds_count && d.spec_is_wild() && face.0 != 1)
}

/// Number of dice in `s` that count toward `face`.
pub open spec fn count_matching(s: Seq<DiceValue>, face: DiceValue, wilds_count: bool) -> nat
    decreases s.len(),
{
    if s.len() == 0 {
        0
    } else {
        count_matching(s.drop_last(), face, wilds_count) + if die_matches(
            s.last(),
            face,
            wilds_count,
        ) {
            1nat
        } else {
            0nat
        }
    }
}

/// The count never exceeds the number of dice.
pub proof fn lemma_count_matching_le_len(s: Seq<DiceValue>, face: DiceValue, wilds_count: bool)
    ensures
        count_matching(s, face, wilds_count) <= s.len(),
    decreases s.len(),
{
    if s.len() > 0 {
        lemma_count_matching_le_len(s.drop_last(), face, wilds_count);
    }
}

/// A player's complete hand of dice (typically 5 dice).
#[derive(Clone, Debug)]
pub struct PlayerDice {
    /// The actual dice values (only visible to the owner until revealed).
    pub dice: Vec<DiceValue>,
    /// Number of dice remaining (starts at 5, decreases when losing rounds).
    pub count: u8,
}

/// Dice a player starts the game with.
pub const STARTING_DICE: u8 = 5;

impl PlayerDice {
    /// The redundant count always mirrors the hand length, and every face
    /// is in range.
    pub open spec fn wf(self) -> bool {
        &&& self.count == self.dice@.len()
        &&& forall|i: int| 0 <= i < self.dice@.len() ==> (#[trigger] self.dice@[i]).is_valid()
    }

    pub fn new(dice: Vec<DiceValue>) -> (r: Self)
        requires
            dice@.len() <= u8::MAX,
        ensures
            r.dice == dice,
            r.count == dice@.len(),
    {
        let count = dice.len() as u8;
        PlayerDice { dice, count }
    }

    /// Count how many dice match a specific face value (including wilds).
    pub fn count_face(&self, face: DiceValue, wilds_count: bool) -> (r: u8)
        requires
            self.dice@.len() <= u8::MAX,
        ensures
            r == count_matching(self.dice@, face, wilds_count),
    {
        proof {
            lemma_count_matching_le_len(self.dice@, face, wilds_count);
        }
        let mut r: u8 = 0;
        let mut i: usize = 0;
        while i < self.dice.len()
            invariant
                0 <= i <= self.dice@.len() <= u8::MAX,
                r == count_matching(self.dice@.subrange(0, i as int), face, wilds_count),
                r <= i,
            decreases self.dice@.len() - i,
        {
            let d = self.dice[i];
            proof {
                assert(self.dice@.subrange(0, i + 1).drop_last() =~= self.dice@.subrange(
                    0,
                    i as int,
                ));
                assert(self.dice@.subrange(0, i + 1).last() == self.dice@[i as int]);
            }
            if d.value() == face.value() || (wilds_count && d.is_wild() && face.value() != 1) {
                r = r + 1;
            }
            i = i + 1;
        }
        proof {
            assert(self.dice@.subrange(0, self.dice@.len() as int) =~= self.dice@);
        }
        r
    }

    /// Count only exact matches (no wilds).
    pub fn count_exact(&self, face: DiceValue) -> (r: u8)
        requires
            self.dice@.len() <= u8::MAX,
        ensures
            r == count_matching(self.dice@, face, false),
    {
        self.count_face(face, false)
    }

    /// Remove one die (when losing a round).
    pub fn lose_die(&mut self)
        ensures
            old(self).count > 0 ==> final(self).count == old(self).count - 1,
            old(self).count == 0 ==> final(self).count == old(self).count,
            old(self).count > 0 && old(self).dice@.len() > 0 ==> final(self).dice@ == old(
                self,
            ).dice@.drop_last(),
            old(self).count == 0 || old(self).dice@.len() == 0 ==> final(self).dice@ == old(
                self,
            ).dice@,
            old(self).wf() ==> final(self).wf(),
    {
        if self.count > 0 {
            self.count = self.count - 1;
            if self.dice.len() > 0 {
                self.dice.pop();
            }
        }
    }

    pub open spec fn spec_is_eliminated(&self) -> bool {
        self.count == 0
    }

    #[verifier::when_used_as_spec(spec_is_eliminated)]
    pub fn is_eliminated(&self) -> (r: bool)
        ensures
            r == self.spec_is_eliminated(),
    {
        self.count == 0
    }

    /// The byte image of a hand: one byte per die, in hand order.
    pub open spec fn spec_bytes(self) -> Seq<u8> {
        self.dice@.map_values(|d: DiceValue| d.0)
    }

    /// Convert dice to bytes for commitment hashing.
    pub fn to_bytes(&self) -> (r: Vec<u8>)
        ensures
            r@ == self.spec_bytes(),
    {
        let mut r: Vec<u8> = Vec::new();
        let mut i: usize = 0;
        while i < self.dice.len()
            invariant
                0 <= i <= self.dice@.len(),
                r@ =~= self.dice@.subrange(0, i as int).map_values(|d: DiceValue| d.0),
            decreases self.dice@.len() - i,
        {
            r.push(self.dice[i].value());
            i = i + 1;
        }
        proof {
            assert(self.dice@.subrange(0, self.dice@.len() as int) =~= self.dice@);
        }
        r
    }

    /// Create a hand from its byte representation; every byte must be a
    /// valid face value.
    pub fn from_bytes(bytes: &Vec<u8>) -> (r: Option<Self>)
        requires
            bytes@.len() <= u8::MAX,
        ensures
            r is Some <==> (forall|i: int| 0 <= i < bytes@.len() ==> 1 <= #[trigger] bytes@[i]
                <= 6),
            r is Some ==> {
                &&& r->0.wf()
                &&& r->0.spec_bytes() == bytes@
                &&& r->0.count == bytes@.len()
            },
    {
        let mut dice: Vec<DiceValue> = Vec::new();
        let mut i: usize = 0;
        while i < bytes.len()
            invariant
                0 <= i <= bytes@.len() <= u8::MAX,
                dice@.len() == i,
                forall|j: int| 0 <= j < i ==> 1 <= #[trigger] bytes@[j] <= 6,
                forall|j: int| 0 <= j < i ==> #[trigger] dice@[j] == DiceValue(bytes@[j]),
            decreases bytes@.len() - i,
        {
            match DiceValue::new(bytes[i]) {
                Some(d) => dice.push(d),
                None => {
                    return None;
                },
            }
            i = i + 1;
        }
        let r = PlayerDice::new(dice);
        proof {
            assert(r.spec_bytes() =~= bytes@);
        }
        Some(r)
    }
}

/// Dice commitment for the commit-reveal scheme.
#[derive(Clone, Copy, Debug)]
pub struct DiceCommitment {
    /// Hash of (dice_bytes || salt).
    pub hash: [u8; 32],
    /// Has this commitment been revealed?
    pub revealed: bool,
    /// Was the player caught cheating (invalid reveal)?
    pub cheater: bool,
}

impl DiceCommitment {
    /// A caught cheater is always force-marked revealed, so that a round
    /// can still resolve.
    pub open spec fn wf(self) -> bool {
        self.cheater ==> self.revealed
    }

    pub fn new(hash: [u8; 32]) -> (r: Self)
        ensures
            r.hash == hash,
            !r.revealed,
            !r.cheater,
            r.wf(),
    {
        DiceCommitment { hash, revealed: false, cheater: false }
    }

    pub fn mark_revealed(&mut self)
        ensures
            *final(self) == (DiceCommitment { revealed: true, ..*old(self) }),
            old(self).wf() ==> final(self).wf(),
    {
        self.revealed = true;
    }

    /// Marking a cheater also force-reveals, preserving the invariant that
    /// resolution never deadlocks on an unrevealed commitment.
    pub fn mark_cheater(&mut self)
        ensures
            *final(self) == (DiceCommitment { cheater: true, revealed: true, ..*old(self) }),
            final(self).wf(),
    {
        self.cheater = true;
        self.revealed = true;
    }
}

/// Revealed dice together with the salt needed for verification.
#[derive(Clone, Debug)]
pub struct DiceReveal {
    pub dice: PlayerDice,
    pub salt: [u8; 32],
}

impl DiceReveal {
    pub fn new(dice: PlayerDice, salt: [u8; 32]) -> (r: Self)
        ensures
            r.dice == dice,
            r.salt == salt,
    {
        DiceReveal { dice, salt }
    }
}

} // verus!
