//! Goal flags and tick-delay helpers for mob AI.

use vstd::prelude::*;

verus! {

/// A control channel that a goal may claim: movement, looking, jumping or targeting.
///
/// Goals whose flag sets overlap cannot run at the same time.
#[derive(Debug, Clone, Copy, PartialEq, Eq, Structural, Hash)]
pub enum GoalFlag {
    /// Controls entity movement
    Move,
    /// Controls where the entity looks
    Look,
    /// Controls jumping behavior
    Jump,
    /// Controls target selection
    Target,
}

/// The bit position of a flag inside a [`GoalFlags`] set.
pub open spec fn flag_index(flag: GoalFlag) -> u8 {
    match flag {
        GoalFlag::Move => 0,
        GoalFlag::Look => 1,
        GoalFlag::Jump => 2,
        GoalFlag::Target => 3,
    }
}

/// The single-bit mask of a flag.
pub open spec fn flag_mask(flag: GoalFlag) -> u8 {
    match flag {
        GoalFlag::Move => 1,
        GoalFlag::Look => 2,
        GoalFlag::Jump => 4,
        GoalFlag::Target => 8,
    }
}

impl GoalFlag {
    /// Total number of goal flags
    pub const COUNT: usize = 4;

    /// The bit position of this flag (0 for `Move` up to 3 for `Target`).
    pub fn index(self) -> (r: usize)
        ensures
            r == flag_index(self),
            r < Self::COUNT,
    {
        match self {
            GoalFlag::Move => 0,
            GoalFlag::Look => 1,
            GoalFlag::Jump => 2,
            GoalFlag::Target => 3,
        }
    }

    /// The flag at a bit position, if the position names one.
    pub fn from_index(i: usize) -> (r: Option<GoalFlag>)
        ensures
            i < Self::COUNT ==> (r matches Some(f) && flag_index(f) == i),
            i >= Self::COUNT ==> r is None,
    {
        if i == 0 {
            Some(GoalFlag::Move)
        } else if i == 1 {
            Some(GoalFlag::Look)
        } else if i == 2 {
            Some(GoalFlag::Jump)
        } else if i == 3 {
            Some(GoalFlag::Target)
        } else {
            None
        }
    }

    /// The mask of this flag (`1 << index`).
    pub fn mask(self) -> (r: u8)
        ensures
            r == flag_mask(self),
            r == 1u8 << flag_index(self),
    {
        let r: u8 = match self {
            GoalFlag::Move => 1,
            GoalFlag::Look => 2,
            GoalFlag::Jump => 4,
            GoalFlag::Target => 8,
        };
        assert(1u8 << 0u8 == 1u8 && 1u8 << 1u8 == 2u8 && 1u8 << 2u8 == 4u8 && 1u8 << 3u8 == 8u8)
            by (bit_vector);
        r
    }
}

/// The bit field that holds exactly the flags marked true (`Move`, `Look`,
/// `Jump`, `Target`).
pub open spec fn bits_for(m: bool, l: bool, j: bool, t: bool) -> int {
    (if m { 1int } else { 0int }) + (if l { 2int } else { 0int }) + (if j { 4int } else { 0int }) + (if t {
        8int
    } else {
        0int
    })
}

/// A bit field below 16 is the sum of its four flag bits.
proof fn lemma_bits_decompose(b: u8)
    requires
        b < 16,
    ensures
        b == bits_for(b & 1 != 0, b & 2 != 0, b & 4 != 0, b & 8 != 0),
{
    assert(b < 16 ==> b == (if b & 1 != 0 { 1u8 } else { 0u8 }) + (if b & 2 != 0 { 2u8 } else { 0u8 })
        + (if b & 4 != 0 { 4u8 } else { 0u8 }) + (if b & 8 != 0 { 8u8 } else { 0u8 })) by (bit_vector);
}

/// A set of goal flags, held as a bit field (bit `i` for the flag of index `i`).
#[derive(Debug, Clone, Copy, PartialEq, Eq, Structural)]
pub struct GoalFlags(u8);

/// Whether a bit field holds the bit of a flag.
pub open spec fn bits_have(bits: u8, flag: GoalFlag) -> bool {
    bits & flag_mask(flag) != 0
}

impl GoalFlags {
    /// The raw bits of this set.
    pub closed spec fn spec_bits(self) -> u8 {
        self.0
    }

    /// Only the four flag bits can be set.
    #[verifier::type_invariant]
    closed spec fn inv(self) -> bool {
        self.0 < 16
    }

    /// Whether the set holds a flag.
    pub open spec fn has(self, flag: GoalFlag) -> bool {
        bits_have(self.spec_bits(), flag)
    }

    /// Creates an empty flag set
    pub fn empty() -> (r: Self)
        ensures
            r.spec_bits() == 0,
            forall|f: GoalFlag| !#[trigger] r.has(f),
    {
        assert(forall|m: u8| 0u8 & m == 0u8) by (bit_vector);
        Self(0)
    }

    /// Creates a flag set from a single flag
    pub fn from_flag(flag: GoalFlag) -> (r: Self)
        ensures
            r.spec_bits() == flag_mask(flag),
            forall|f: GoalFlag| #[trigger] r.has(f) <==> f == flag,
    {
        let m = flag.mask();
        proof { lemma_masks(); }
        Self(m)
    }

    /// Creates a flag set from multiple flags
    pub fn from_flags(flags: &[GoalFlag]) -> (r: Self)
        ensures
            forall|f: GoalFlag| #[trigger] r.has(f) <==> flags@.contains(f),
            r.spec_bits() == bits_for(
                flags@.contains(GoalFlag::Move),
                flags@.contains(GoalFlag::Look),
                flags@.contains(GoalFlag::Jump),
                flags@.contains(GoalFlag::Target),
            ),
    {
        let mut bits: u8 = 0;
        proof {
            lemma_masks();
            assert(forall|m: u8| 0u8 & m == 0u8) by (bit_vector);
        }
        let n = flags.len();
        for i in 0..n
            invariant
                n == flags@.len(),
                bits < 16,
                forall|f: GoalFlag|
                    #[trigger] bits_have(bits, f) <==> flags@.subrange(0, i as int).contains(f),
        {
            let flag = flags[i];
            let old_bits = bits;
            bits = bits | flag.mask();
            proof {
                lemma_or_mask(old_bits, flag);
                let s1 = flags@.subrange(0, i as int);
                let s2 = flags@.subrange(0, i + 1);
                assert(s2 =~= s1.push(flag));
                assert forall|f: GoalFlag| #[trigger] bits_have(bits, f) <==> s2.contains(f) by {
                    if f == flag {
                        assert(s2[s1.len() as int] == flag);
                    }
                    if s1.contains(f) {
                        let k = choose|k: int| 0 <= k < s1.len() && s1[k] == f;
                        assert(s2[k] == f);
                    }
                    if s2.contains(f) {
                        let k = choose|k: int| 0 <= k < s2.len() && s2[k] == f;
                        if k < s1.len() {
                            assert(s1[k] == f);
                        }
                    }
                }
            }
        }
        assert(flags@.subrange(0, n as int) =~= flags@);
        proof {
            lemma_bits_decompose(bits);
            assert(bits_have(bits, GoalFlag::Move) == flags@.contains(GoalFlag::Move));
            assert(bits_have(bits, GoalFlag::Look) == flags@.contains(GoalFlag::Look));
            assert(bits_have(bits, GoalFlag::Jump) == flags@.contains(GoalFlag::Jump));
            assert(bits_have(bits, GoalFlag::Target) == flags@.contains(GoalFlag::Target));
        }
        Self(bits)
    }

    /// Adds a flag to the set
    pub fn insert(&mut self, flag: GoalFlag)
        ensures
            final(self).spec_bits() == old(self).spec_bits() | flag_mask(flag),
            forall|f: GoalFlag| #[trigger] final(self).has(f) <==> (old(self).has(f) || f == flag),
    {
        proof { use_type_invariant(&*self); }
        let old_bits = self.0;
        proof { lemma_or_mask(old_bits, flag); }
        self.0 = self.0 | flag.mask();
    }

    /// Removes a flag from the set
    pub fn remove(&mut self, flag: GoalFlag)
        ensures
            final(self).spec_bits() == old(self).spec_bits() & !flag_mask(flag),
            forall|f: GoalFlag| #[trigger] final(self).has(f) <==> (old(self).has(f) && f != flag),
    {
        proof { use_type_invariant(&*self); }
        let old_bits = self.0;
        proof { lemma_and_not_mask(old_bits, flag); }
        self.0 = self.0 & !flag.mask();
    }

    /// Checks if the set contains a flag
    pub fn contains(&self, flag: GoalFlag) -> (r: bool)
        ensures
            r == self.has(flag),
    {
        (self.0 & flag.mask()) != 0
    }

    /// Checks if this set intersects with another
    pub fn intersects(&self, other: &Self) -> (r: bool)
        ensures
            r == (self.spec_bits() & other.spec_bits() != 0),
            r <==> exists|f: GoalFlag| #[trigger] self.has(f) && other.has(f),
    {
        proof {
            use_type_invariant(self);
            use_type_invariant(other);
        }
        let r = (self.0 & other.0) != 0;
        proof {
            if self.0 < 16 && other.0 < 16 {
                lemma_intersects(self.0, other.0);
                if r {
                    if self.has(GoalFlag::Move) && other.has(GoalFlag::Move) {
                    } else if self.has(GoalFlag::Look) && other.has(GoalFlag::Look) {
                    } else if self.has(GoalFlag::Jump) && other.has(GoalFlag::Jump) {
                    } else {
                        assert(self.has(GoalFlag::Target) && other.has(GoalFlag::Target));
                    }
                }
            }
        }
        r
    }

    /// Checks if the set is empty
    pub fn is_empty(&self) -> (r: bool)
        ensures
            r == (self.spec_bits() == 0),
            r <==> forall|f: GoalFlag| !#[trigger] self.has(f),
    {
        proof {
            use_type_invariant(self);
        }
        let r = self.0 == 0;
        proof {
            if self.0 < 16 {
                lemma_empty(self.0);
                if !r {
                    assert(self.has(GoalFlag::Move) || self.has(GoalFlag::Look) || self.has(GoalFlag::Jump)
                        || self.has(GoalFlag::Target));
                }
            }
        }
        r
    }

    /// Clears all flags
    pub fn clear(&mut self)
        ensures
            final(self).spec_bits() == 0,
            forall|f: GoalFlag| !#[trigger] final(self).has(f),
    {
        assert(forall|m: u8| 0u8 & m == 0u8) by (bit_vector);
        self.0 = 0;
    }

    /// Returns the raw bits
    pub fn bits(&self) -> (r: u8)
        ensures
            r == self.spec_bits(),
    {
        self.0
    }

    /// The flags of this set, in index order (`Move`, `Look`, `Jump`, `Target`).
    pub fn to_vec(&self) -> (r: Vec<GoalFlag>)
        ensures
            forall|f: GoalFlag| #[trigger] r@.contains(f) <==> self.has(f),
            forall|i: int, j: int| 0 <= i < j < r@.len() ==> flag_index(r@[i]) < flag_index(r@[j]),
    {
        let mut r: Vec<GoalFlag> = Vec::new();
        let all = [GoalFlag::Move, GoalFlag::Look, GoalFlag::Jump, GoalFlag::Target];
        for i in 0..4
            invariant
                all@ == seq![GoalFlag::Move, GoalFlag::Look, GoalFlag::Jump, GoalFlag::Target],
                forall|f: GoalFlag| #[trigger] r@.contains(f) <==> (self.has(f) && flag_index(f) < i),
                forall|k: int| 0 <= k < r@.len() ==> flag_index(#[trigger] r@[k]) < i,
                forall|a: int, b: int| 0 <= a < b < r@.len() ==> flag_index(r@[a]) < flag_index(r@[b]),
        {
            let f = all[i];
            assert(flag_index(f) == i);
            if self.contains(f) {
                let ghost old_r = r@;
                r.push(f);
                proof {
                    assert(r@.drop_last() =~= old_r);
                    assert(r@[r@.len() - 1] == f);
                    assert forall|g: GoalFlag| #[trigger] r@.contains(g) <==> (self.has(g) && flag_index(g) < i + 1) by {
                        lemma_index_injective(g, f);
                        if g == f {
                            assert(r@.contains(g));
                        } else {
                            if r@.contains(g) {
                                let k = choose|k: int| 0 <= k < r@.len() && r@[k] == g;
                                assert(k < r@.len() - 1);
                                assert(old_r[k] == g);
                                assert(old_r.contains(g));
                            }
                            if old_r.contains(g) {
                                let k = choose|k: int| 0 <= k < old_r.len() && old_r[k] == g;
                                assert(r@[k] == g);
                            }
                        }
                    }
                }
            } else {
                proof {
                    assert forall|g: GoalFlag| #[trigger] r@.contains(g) <==> (self.has(g) && flag_index(g) < i + 1) by {
                        if flag_index(g) == i {
                            lemma_index_injective(g, f);
                        }
                    }
                }
            }
        }
        r
    }
}

impl Default for GoalFlags {
    fn default() -> (r: Self)
        ensures
            r.spec_bits() == 0,
    {
        Self(0)
    }
}

proof fn lemma_index_injective(a: GoalFlag, b: GoalFlag)
    ensures
        flag_index(a) == flag_index(b) <==> a == b,
{
}

/// Facts on the four masks: each one is a single bit and differs from the others.
proof fn lemma_masks()
    ensures
        forall|f: GoalFlag| #[trigger] flag_mask(f) & flag_mask(f) != 0,
        forall|f: GoalFlag, g: GoalFlag| f != g ==> #[trigger] flag_mask(f) & #[trigger] flag_mask(g) == 0,
        forall|f: GoalFlag| #[trigger] flag_mask(f) < 16,
{
    assert(1u8 & 1u8 == 1u8 && 2u8 & 2u8 == 2u8 && 4u8 & 4u8 == 4u8 && 8u8 & 8u8 == 8u8) by (bit_vector);
    assert(1u8 & 2u8 == 0u8 && 1u8 & 4u8 == 0u8 && 1u8 & 8u8 == 0u8 && 2u8 & 4u8 == 0u8
        && 2u8 & 8u8 == 0u8 && 4u8 & 8u8 == 0u8) by (bit_vector);
    assert(2u8 & 1u8 == 0u8 && 4u8 & 1u8 == 0u8 && 8u8 & 1u8 == 0u8 && 4u8 & 2u8 == 0u8
        && 8u8 & 2u8 == 0u8 && 8u8 & 4u8 == 0u8) by (bit_vector);
}

proof fn lemma_or_mask(bits: u8, flag: GoalFlag)
    ensures
        forall|f: GoalFlag| #[trigger] bits_have(bits | flag_mask(flag), f) <==> (bits_have(bits, f) || f == flag),
        bits < 16 ==> (bits | flag_mask(flag)) < 16,
{
    lemma_masks();
    assert forall|f: GoalFlag| #[trigger] bits_have(bits | flag_mask(flag), f) <==> (bits_have(bits, f) || f == flag) by {
        let a = flag_mask(flag);
        let b = flag_mask(f);
        if f == flag {
            assert(a & a != 0);
            assert(b & b != 0 ==> (bits | a) & b != 0) by (bit_vector) requires a == b;
        } else {
            assert(a & b == 0);
            assert(a & b == 0 ==> ((bits | a) & b != 0 <==> bits & b != 0)) by (bit_vector);
        }
    }
    let a = flag_mask(flag);
    assert(bits < 16 && a < 16 ==> (bits | a) < 16) by (bit_vector);
}

proof fn lemma_and_not_mask(bits: u8, flag: GoalFlag)
    ensures
        forall|f: GoalFlag| #[trigger] bits_have(bits & !flag_mask(flag), f) <==> (bits_have(bits, f) && f != flag),
        bits < 16 ==> (bits & !flag_mask(flag)) < 16,
{
    lemma_masks();
    let a = flag_mask(flag);
    assert(bits < 16 ==> (bits & !a) < 16) by (bit_vector);
    assert forall|f: GoalFlag| #[trigger] bits_have(bits & !flag_mask(flag), f) <==> (bits_have(bits, f) && f != flag) by {
        let a = flag_mask(flag);
        let b = flag_mask(f);
        if f == flag {
            assert((bits & !a) & a == 0) by (bit_vector);
        } else {
            assert(a & b == 0);
            assert(a & b == 0 ==> ((bits & !a) & b != 0 <==> bits & b != 0)) by (bit_vector);
        }
    }
}

proof fn lemma_intersects(x: u8, y: u8)
    requires
        x < 16,
        y < 16,
    ensures
        (x & y != 0) ==> ((bits_have(x, GoalFlag::Move) && bits_have(y, GoalFlag::Move))
            || (bits_have(x, GoalFlag::Look) && bits_have(y, GoalFlag::Look))
            || (bits_have(x, GoalFlag::Jump) && bits_have(y, GoalFlag::Jump))
            || (bits_have(x, GoalFlag::Target) && bits_have(y, GoalFlag::Target))),
        (x & y == 0) ==> forall|f: GoalFlag| !(#[trigger] bits_have(x, f) && bits_have(y, f)),
{
    assert(x < 16 && y < 16 ==> ((x & y != 0) <==> ((x & 1 != 0 && y & 1 != 0) || (x & 2 != 0 && y & 2 != 0)
        || (x & 4 != 0 && y & 4 != 0) || (x & 8 != 0 && y & 8 != 0)))) by (bit_vector);
}

proof fn lemma_empty(x: u8)
    requires
        x < 16,
    ensures
        (x != 0) ==> (bits_have(x, GoalFlag::Move) || bits_have(x, GoalFlag::Look)
            || bits_have(x, GoalFlag::Jump) || bits_have(x, GoalFlag::Target)),
        (x == 0) ==> forall|f: GoalFlag| !#[trigger] bits_have(x, f),
{
    assert(x < 16 ==> (x == 0 <==> (x & 1 == 0 && x & 2 == 0 && x & 4 == 0 && x & 8 == 0))) by (bit_vector);
    assert(forall|m: u8| 0u8 & m == 0u8) by (bit_vector);
}

/// Reduces a tick delay for goals that don't require every-tick updates: half the ticks,
/// rounded up.
pub fn reduced_tick_delay(ticks: u32) -> (r: u32)
    ensures
        r == (ticks + 1) / 2,
{
    ticks / 2 + ticks % 2
}

/// Adjusts a tick delay based on whether the goal requires every-tick updates.
pub fn adjusted_tick_delay(ticks: u32, requires_every_tick: bool) -> (r: u32)
    ensures
        requires_every_tick ==> r == ticks,
        !requires_every_tick ==> r == (ticks + 1) / 2,
{
    if requires_every_tick {
        ticks
    } else {
        reduced_tick_delay(ticks)
    }
}

} // verus!
