use vstd::prelude::*;

verus! {

/// The packed word of the value that no mate reaches: "no mate".
pub const INF_BITS: u32 = 0xffff_ffff;

/// Every packed word at or above this one has all twelve ply bits set and is
/// read as "no mate".
pub const PLY_MASK: u32 = 0xfff0_0000;

/// An evaluation; the smaller, the better for the attacker.
///
/// Thirty-two bits, compared as one unsigned word. From the top: twelve bits
/// of plies to mate, eight bits holding `0xff` minus the number of pieces left
/// in the attacker's hand, twelve bits holding `0xfff` minus the number of
/// futile interpositions.
#[derive(Clone, Copy, Debug, PartialEq, Eq, Structural, PartialOrd, Ord, Hash)]
pub struct Value(pub u32);

impl Value {
    /// The value that is better than every mate.
    pub open spec fn spec_zero() -> Value {
        Value(0)
    }

    /// The value that stands for "no mate".
    pub open spec fn spec_inf() -> Value {
        Value(INF_BITS)
    }

    /// A value is a mate exactly when its ply field is not all ones.
    pub open spec fn spec_is_mate(self) -> bool {
        self.0 < PLY_MASK
    }

    /// The ply field.
    pub open spec fn spec_plies(self) -> u32 {
        (self.0 / 0x10_0000) as u32
    }

    /// The number of pieces in the attacker's hand that the value records.
    pub open spec fn spec_pieces(self) -> u32 {
        (0xff - (self.0 / 0x1000) % 0x100) as u32
    }

    /// The number of futile interpositions that the value records.
    pub open spec fn spec_futile(self) -> u32 {
        (0xfff - self.0 % 0x1000) as u32
    }

    /// The packed word of the three fields, each within its width.
    pub open spec fn pack(plies: int, pieces: int, futile: int) -> Value {
        Value((plies * 0x10_0000 + (0xff - pieces) * 0x1000 + (0xfff - futile)) as u32)
    }

    /// The fields of a value are within their widths, and packing them gives
    /// the value back.
    pub proof fn lemma_fields(self)
        ensures
            self.spec_plies() <= 0xfff,
            self.spec_pieces() <= 0xff,
            self.spec_futile() <= 0xfff,
            self.spec_is_mate() <==> self.spec_plies() < 0xfff,
            Value::pack(
                self.spec_plies() as int,
                self.spec_pieces() as int,
                self.spec_futile() as int,
            ) == self,
    {
        let x = self.0;
        assert(x / 0x10_0000 <= 0xfff && (x / 0x1000) % 0x100 <= 0xff && x % 0x1000 <= 0xfff
            && (x < 0xfff0_0000u32 <==> x / 0x10_0000 < 0xfff) && (x / 0x10_0000) * 0x10_0000 + ((x
            / 0x1000) % 0x100) * 0x1000 + x % 0x1000 == x) by (bit_vector);
    }

    /// Packing three fields that are within their widths keeps each of them.
    pub proof fn lemma_pack(plies: int, pieces: int, futile: int)
        requires
            0 <= plies <= 0xfff,
            0 <= pieces <= 0xff,
            0 <= futile <= 0xfff,
        ensures
            Value::pack(plies, pieces, futile).0 == plies * 0x10_0000 + (0xff - pieces) * 0x1000 + (
            0xfff - futile),
            Value::pack(plies, pieces, futile).spec_plies() == plies,
            Value::pack(plies, pieces, futile).spec_pieces() == pieces,
            Value::pack(plies, pieces, futile).spec_futile() == futile,
    {
        let a = plies as u32;
        let b = (0xff - pieces) as u32;
        let c = (0xfff - futile) as u32;
        assert(a <= 0xfff && b <= 0xff && c <= 0xfff ==> {
            let x = (a * 0x10_0000 + b * 0x1000 + c) as u32;
            &&& x == a * 0x10_0000 + b * 0x1000 + c
            &&& x / 0x10_0000 == a
            &&& (x / 0x1000) % 0x100 == b
            &&& x % 0x1000 == c
        }) by (nonlinear_arith);
    }

    /// The value with `a` added to the ply field: "no mate" when `self` is no
    /// mate or when the sum leaves the range of plies that a mate can have.
    pub open spec fn spec_plies_added(self, a: int) -> Value {
        let plies = self.spec_plies() + a;
        if !self.spec_is_mate() || plies < 0 || plies >= 0xfff {
            Value::spec_inf()
        } else {
            Value::pack(plies, self.spec_pieces() as int, self.spec_futile() as int)
        }
    }

    /// The value with `a` added to the pieces in hand: "no mate" when `self`
    /// is no mate or when the sum leaves the field.
    pub open spec fn spec_pieces_added(self, a: int) -> Value {
        let pieces = self.spec_pieces() + a;
        if !self.spec_is_mate() || pieces < 0 || pieces > 0xff {
            Value::spec_inf()
        } else {
            Value::pack(self.spec_plies() as int, pieces, self.spec_futile() as int)
        }
    }

    /// The value with `a` added to the futile interpositions: "no mate" when
    /// `self` is no mate or when the sum leaves the field.
    pub open spec fn spec_futile_added(self, a: int) -> Value {
        let futile = self.spec_futile() + a;
        if !self.spec_is_mate() || futile < 0 || futile > 0xfff {
            Value::spec_inf()
        } else {
            Value::pack(self.spec_plies() as int, self.spec_pieces() as int, futile)
        }
    }

    /// The value that is better than every mate.
    #[verifier::when_used_as_spec(spec_zero)]
    pub fn zero() -> (v: Value)
        ensures
            v == Value::spec_zero(),
    {
        Value(0)
    }

    /// The value that stands for "no mate".
    #[verifier::when_used_as_spec(spec_inf)]
    pub fn inf() -> (v: Value)
        ensures
            v == Value::spec_inf(),
    {
        Value(INF_BITS)
    }

    /// Packs plies, pieces in the attacker's hand and futile interpositions.
    pub fn new(plies: u32, pieces: u32, futile: u32) -> (v: Value)
        requires
            plies <= 0xfff,
            pieces <= 0xff,
            futile <= 0xfff,
        ensures
            v == Value::pack(plies as int, pieces as int, futile as int),
            v.spec_plies() == plies,
            v.spec_pieces() == pieces,
            v.spec_futile() == futile,
    {
        proof {
            Value::lemma_pack(plies as int, pieces as int, futile as int);
        }
        let b: u32 = 0xff - pieces;
        let c: u32 = 0xfff - futile;
        assert(plies <= 0xfff && b <= 0xff && c <= 0xfff ==> (plies << 20 | b << 12 | c) == plies
            * 0x10_0000 + b * 0x1000 + c) by (bit_vector);
        Value(plies << 20 | b << 12 | c)
    }

    /// Whether the value is a mate.
    #[verifier::when_used_as_spec(spec_is_mate)]
    pub fn is_mate(self) -> (b: bool)
        ensures
            b == self.spec_is_mate(),
    {
        self.0 < PLY_MASK
    }

    /// The number of plies to mate; `0xfff` for "no mate".
    #[verifier::when_used_as_spec(spec_plies)]
    pub fn plies(self) -> (n: u32)
        ensures
            n == self.spec_plies(),
            n <= 0xfff,
    {
        let x: u32 = self.0;
        assert(x >> 20 == x / 0x10_0000 && x >> 20 <= 0xfff) by (bit_vector);
        self.0 >> 20
    }

    /// The number of pieces left in the attacker's hand.
    #[verifier::when_used_as_spec(spec_pieces)]
    pub fn pieces(self) -> (n: u32)
        ensures
            n == self.spec_pieces(),
            n <= 0xff,
    {
        let x: u32 = self.0;
        assert((x >> 12) & 0xff == (x / 0x1000) % 0x100 && (x >> 12) & 0xff <= 0xff)
            by (bit_vector);
        0xff - ((self.0 >> 12) & 0xff)
    }

    /// The number of futile interpositions.
    #[verifier::when_used_as_spec(spec_futile)]
    pub fn futile(self) -> (n: u32)
        ensures
            n == self.spec_futile(),
            n <= 0xfff,
    {
        let x: u32 = self.0;
        assert(x & 0xfff == x % 0x1000 && x & 0xfff <= 0xfff) by (bit_vector);
        0xfff - (self.0 & 0xfff)
    }

    /// Adds `a` plies, which may be negative. "No mate" stays "no mate", and a
    /// sum outside the plies of a mate gives "no mate".
    pub fn plies_added_unchecked(self, a: i32) -> (v: Value)
        ensures
            v == self.spec_plies_added(a as int),
    {
        if self.0 >= PLY_MASK {
            return Value(INF_BITS);
        }
        let plies: i64 = self.plies() as i64 + a as i64;
        if plies < 0 || plies >= 0xfff {
            return Value(INF_BITS);
        }
        Value::new(plies as u32, self.pieces(), self.futile())
    }

    /// Adds `a` pieces to the attacker's hand, which may be negative. "No
    /// mate" stays "no mate", and a sum outside the field gives "no mate".
    pub fn pieces_added_unchecked(self, a: i32) -> (v: Value)
        ensures
            v == self.spec_pieces_added(a as int),
    {
        if self.0 >= PLY_MASK {
            return Value(INF_BITS);
        }
        let pieces: i64 = self.pieces() as i64 + a as i64;
        if pieces < 0 || pieces > 0xff {
            return Value(INF_BITS);
        }
        Value::new(self.plies(), pieces as u32, self.futile())
    }

    /// Adds `a` futile interpositions, which may be negative. "No mate" stays
    /// "no mate", and a sum outside the field gives "no mate".
    pub fn futile_added_unchecked(self, a: i32) -> (v: Value)
        ensures
            v == self.spec_futile_added(a as int),
    {
        if self.0 >= PLY_MASK {
            return Value(INF_BITS);
        }
        let futile: i64 = self.futile() as i64 + a as i64;
        if futile < 0 || futile > 0xfff {
            return Value(INF_BITS);
        }
        Value::new(self.plies(), self.pieces(), futile as u32)
    }

    /// Adding `k` plies and taking them away again gives the value back,
    /// whenever the value is a mate and the sum is still the plies of a mate.
    pub proof fn lemma_plies_added_round_trip(self, k: int)
        requires
            self.spec_is_mate(),
            0 <= self.spec_plies() + k < 0xfff,
        ensures
            self.spec_plies_added(k).spec_is_mate(),
            self.spec_plies_added(k).spec_plies_added(-k) == self,
    {
        self.lemma_fields();
        let plies = self.spec_plies() + k;
        Value::lemma_pack(plies, self.spec_pieces() as int, self.spec_futile() as int);
        self.spec_plies_added(k).lemma_fields();
    }

    /// Among mates the packed word orders by plies first (fewer is smaller),
    /// then by pieces left in the attacker's hand (more is smaller), then by
    /// futile interpositions (more is smaller).
    pub proof fn lemma_order(self, other: Value)
        ensures
            self.0 < other.0 <==> {
                ||| self.spec_plies() < other.spec_plies()
                ||| (self.spec_plies() == other.spec_plies() && self.spec_pieces()
                    > other.spec_pieces())
                ||| (self.spec_plies() == other.spec_plies() && self.spec_pieces()
                    == other.spec_pieces() && self.spec_futile() > other.spec_futile())
            },
    {
        let x = self.0;
        let y = other.0;
        assert(x < y <==> {
            ||| x / 0x10_0000 < y / 0x10_0000
            ||| (x / 0x10_0000 == y / 0x10_0000 && (x / 0x1000) % 0x100 < (y / 0x1000) % 0x100)
            ||| (x / 0x10_0000 == y / 0x10_0000 && (x / 0x1000) % 0x100 == (y / 0x1000) % 0x100
                && x % 0x1000 < y % 0x1000)
        }) by (bit_vector);
    }
}

} // verus!
