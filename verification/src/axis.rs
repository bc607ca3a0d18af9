use vstd::prelude::*;

use crate::fileext::same_text;
use vstd::string::StringExecFns;
use crate::space::IVec3;

verus! {

/// An axis-aligned direction.
/// NegX/PosX are West/East, NegZ/PosZ are South/North, NegY/PosY are Down/Up.
#[derive(Copy, Clone, Eq, PartialEq, Debug, Hash, Structural)]
pub enum Axis {
    PosX,
    NegX,
    PosY,
    NegY,
    PosZ,
    NegZ,
}

/// The number of an axis, in the order PosX, NegX, PosY, NegY, PosZ, NegZ.
pub open spec fn axis_index(a: Axis) -> nat {
    match a {
        Axis::PosX => 0,
        Axis::NegX => 1,
        Axis::PosY => 2,
        Axis::NegY => 3,
        Axis::PosZ => 4,
        Axis::NegZ => 5,
    }
}

/// The axis with number i, for i in 0..6.
pub open spec fn axis_at(i: int) -> Axis {
    if i == 0 {
        Axis::PosX
    } else if i == 1 {
        Axis::NegX
    } else if i == 2 {
        Axis::PosY
    } else if i == 3 {
        Axis::NegY
    } else if i == 4 {
        Axis::PosZ
    } else {
        Axis::NegZ
    }
}

/// The opposite direction.
pub open spec fn axis_inverse(a: Axis) -> Axis {
    match a {
        Axis::PosX => Axis::NegX,
        Axis::NegX => Axis::PosX,
        Axis::PosY => Axis::NegY,
        Axis::NegY => Axis::PosY,
        Axis::PosZ => Axis::NegZ,
        Axis::NegZ => Axis::PosZ,
    }
}

/// The two-character name of an axis, "+x" for PosX and so on.
pub open spec fn axis_str(a: Axis) -> Seq<char> {
    match a {
        Axis::PosX => "+x"@,
        Axis::NegX => "-x"@,
        Axis::PosY => "+y"@,
        Axis::NegY => "-y"@,
        Axis::PosZ => "+z"@,
        Axis::NegZ => "-z"@,
    }
}

/// The cardinal name of an axis, "east" for PosX and so on.
pub open spec fn axis_dir_str(a: Axis) -> Seq<char> {
    match a {
        Axis::PosX => "east"@,
        Axis::NegX => "west"@,
        Axis::PosY => "up"@,
        Axis::NegY => "down"@,
        Axis::PosZ => "north"@,
        Axis::NegZ => "south"@,
    }
}

/// The axis whose two-character or cardinal name is s, if any.
pub open spec fn axis_from_text(s: Seq<char>) -> Option<Axis> {
    if s == "+x"@ || s == "east"@ {
        Some(Axis::PosX)
    } else if s == "-x"@ || s == "west"@ {
        Some(Axis::NegX)
    } else if s == "+y"@ || s == "up"@ {
        Some(Axis::PosY)
    } else if s == "-y"@ || s == "down"@ {
        Some(Axis::NegY)
    } else if s == "+z"@ || s == "north"@ {
        Some(Axis::PosZ)
    } else if s == "-z"@ || s == "south"@ {
        Some(Axis::NegZ)
    } else {
        None
    }
}

/// The unit vector of an axis.
pub open spec fn axis_ivec3(a: Axis) -> IVec3 {
    match a {
        Axis::PosX => IVec3 { x: 1, y: 0, z: 0 },
        Axis::NegX => IVec3 { x: -1i32, y: 0, z: 0 },
        Axis::PosY => IVec3 { x: 0, y: 1, z: 0 },
        Axis::NegY => IVec3 { x: 0, y: -1i32, z: 0 },
        Axis::PosZ => IVec3 { x: 0, y: 0, z: 1 },
        Axis::NegZ => IVec3 { x: 0, y: 0, z: -1i32 },
    }
}

/// The names of an axis agree with its unit vector: "east" and "+x" name the axis along +x,
/// "west" and "-x" the one along -x, "up" and "+y" +y, "down" and "-y" -y, "north" and "+z" +z,
/// "south" and "-z" -z; and each name of an axis reads back as that axis.
pub proof fn lemma_axis_names_agree(a: Axis)
    ensures
        (axis_dir_str(a) == "east"@) == (axis_ivec3(a) == IVec3 { x: 1, y: 0, z: 0 }),
        (axis_dir_str(a) == "west"@) == (axis_ivec3(a) == IVec3 { x: -1i32, y: 0, z: 0 }),
        (axis_dir_str(a) == "up"@) == (axis_ivec3(a) == IVec3 { x: 0, y: 1, z: 0 }),
        (axis_dir_str(a) == "down"@) == (axis_ivec3(a) == IVec3 { x: 0, y: -1i32, z: 0 }),
        (axis_dir_str(a) == "north"@) == (axis_ivec3(a) == IVec3 { x: 0, y: 0, z: 1 }),
        (axis_dir_str(a) == "south"@) == (axis_ivec3(a) == IVec3 { x: 0, y: 0, z: -1i32 }),
        (axis_str(a) == "+x"@) == (axis_ivec3(a).x == 1),
        (axis_str(a) == "-x"@) == (axis_ivec3(a).x == -1),
        (axis_str(a) == "+y"@) == (axis_ivec3(a).y == 1),
        (axis_str(a) == "-y"@) == (axis_ivec3(a).y == -1),
        (axis_str(a) == "+z"@) == (axis_ivec3(a).z == 1),
        (axis_str(a) == "-z"@) == (axis_ivec3(a).z == -1),
        axis_from_text(axis_dir_str(a)) == Some(a),
        axis_from_text(axis_str(a)) == Some(a),
        axis_from_text("east"@) == axis_from_text("+x"@),
        axis_from_text("west"@) == axis_from_text("-x"@),
        axis_from_text("up"@) == axis_from_text("+y"@),
        axis_from_text("down"@) == axis_from_text("-y"@),
        axis_from_text("north"@) == axis_from_text("+z"@),
        axis_from_text("south"@) == axis_from_text("-z"@),
{
    lemma_axis_names();
}

/// Tells the axis names apart by their characters.
proof fn lemma_axis_names()
    ensures
        "+x"@ =~= seq!['+', 'x'],
        "-x"@ =~= seq!['-', 'x'],
        "+y"@ =~= seq!['+', 'y'],
        "-y"@ =~= seq!['-', 'y'],
        "+z"@ =~= seq!['+', 'z'],
        "-z"@ =~= seq!['-', 'z'],
        "east"@ =~= seq!['e', 'a', 's', 't'],
        "west"@ =~= seq!['w', 'e', 's', 't'],
        "up"@ =~= seq!['u', 'p'],
        "down"@ =~= seq!['d', 'o', 'w', 'n'],
        "north"@ =~= seq!['n', 'o', 'r', 't', 'h'],
        "south"@ =~= seq!['s', 'o', 'u', 't', 'h'],
{
    reveal_strlit("+x");
    reveal_strlit("-x");
    reveal_strlit("+y");
    reveal_strlit("-y");
    reveal_strlit("+z");
    reveal_strlit("-z");
    reveal_strlit("east");
    reveal_strlit("west");
    reveal_strlit("up");
    reveal_strlit("down");
    reveal_strlit("north");
    reveal_strlit("south");
}

impl Axis {
    /// The number of this axis.
    pub fn as_u8(self) -> (r: u8)
        ensures
            r == axis_index(self),
    {
        match self {
            Axis::PosX => 0,
            Axis::NegX => 1,
            Axis::PosY => 2,
            Axis::NegY => 3,
            Axis::PosZ => 4,
            Axis::NegZ => 5,
        }
    }

    /// The axis with number v; None if v is not in the range [0,6).
    pub fn try_from_u8(v: u8) -> (r: Option<Axis>)
        ensures
            r is Some <==> v < 6,
            r is Some ==> r.unwrap() == axis_at(v as int),
    {
        if v < 6 {
            Some(Self::from_u8_unchecked(v))
        } else {
            None
        }
    }

    /// The axis with number v, which must be in the range [0,6).
    pub fn from_u8_unchecked(v: u8) -> (r: Axis)
        requires
            v < 6,
        ensures
            r == axis_at(v as int),
            axis_index(r) == v,
    {
        match v {
            0 => Axis::PosX,
            1 => Axis::NegX,
            2 => Axis::PosY,
            3 => Axis::NegY,
            4 => Axis::PosZ,
            _ => Axis::NegZ,
        }
    }

    /// The inverse of this axis: PosX and NegX swap, and likewise for Y and Z.
    pub fn invert(self) -> (r: Axis)
        ensures
            r == axis_inverse(self),
    {
        match self {
            Axis::PosX => Axis::NegX,
            Axis::NegX => Axis::PosX,
            Axis::PosY => Axis::NegY,
            Axis::NegY => Axis::PosY,
            Axis::PosZ => Axis::NegZ,
            Axis::NegZ => Axis::PosZ,
        }
    }

    /// The positive axis along the same line.
    pub fn abs(self) -> (r: Axis)
        ensures
            r == axis_at(axis_index(self) - axis_index(self) % 2),
    {
        match self {
            Axis::PosX | Axis::NegX => Axis::PosX,
            Axis::PosY | Axis::NegY => Axis::PosY,
            Axis::PosZ | Axis::NegZ => Axis::PosZ,
        }
    }

    /// The next axis, in the order PosX, NegX, PosY, NegY, PosZ, NegZ, wrapping to PosX.
    pub fn next(self) -> (r: Axis)
        ensures
            r == axis_at((axis_index(self) + 1) as int % 6),
    {
        match self {
            Axis::PosX => Axis::NegX,
            Axis::NegX => Axis::PosY,
            Axis::PosY => Axis::NegY,
            Axis::NegY => Axis::PosZ,
            Axis::PosZ => Axis::NegZ,
            Axis::NegZ => Axis::PosX,
        }
    }

    /// The two-character name, "+x" for PosX etc.
    pub fn as_str(&self) -> (r: &'static str)
        ensures
            r@ == axis_str(*self),
    {
        match *self {
            Axis::PosX => "+x",
            Axis::NegX => "-x",
            Axis::PosY => "+y",
            Axis::NegY => "-y",
            Axis::PosZ => "+z",
            Axis::NegZ => "-z",
        }
    }

    /// The cardinal name, "south", "east", "down", etc.
    pub fn as_dir_str(&self) -> (r: &'static str)
        ensures
            r@ == axis_dir_str(*self),
    {
        match *self {
            Axis::PosX => "east",
            Axis::NegX => "west",
            Axis::PosY => "up",
            Axis::NegY => "down",
            Axis::PosZ => "north",
            Axis::NegZ => "south",
        }
    }

    /// The axis named by its two-character or its cardinal name.
    pub fn from_str(s: &str) -> (r: Option<Axis>)
        ensures
            r == axis_from_text(s@),
    {
        if same_text(s, "+x") || same_text(s, "east") {
            Some(Axis::PosX)
        } else if same_text(s, "-x") || same_text(s, "west") {
            Some(Axis::NegX)
        } else if same_text(s, "+y") || same_text(s, "up") {
            Some(Axis::PosY)
        } else if same_text(s, "-y") || same_text(s, "down") {
            Some(Axis::NegY)
        } else if same_text(s, "+z") || same_text(s, "north") {
            Some(Axis::PosZ)
        } else if same_text(s, "-z") || same_text(s, "south") {
            Some(Axis::NegZ)
        } else {
            None
        }
    }

    /// The unit vector of this axis.
    pub fn as_ivec3(self) -> (r: IVec3)
        ensures
            r == axis_ivec3(self),
    {
        match self {
            Axis::PosX => IVec3 { x: 1, y: 0, z: 0 },
            Axis::NegX => IVec3 { x: -1, y: 0, z: 0 },
            Axis::PosY => IVec3 { x: 0, y: 1, z: 0 },
            Axis::NegY => IVec3 { x: 0, y: -1, z: 0 },
            Axis::PosZ => IVec3 { x: 0, y: 0, z: 1 },
            Axis::NegZ => IVec3 { x: 0, y: 0, z: -1 },
        }
    }

    /// The unit vector of this axis scaled to 127, as signed bytes.
    pub fn as_i8vec3(self) -> (r: [i8; 3])
        ensures
            r@ == seq![
                (127 * axis_ivec3(self).x) as i8,
                (127 * axis_ivec3(self).y) as i8,
                (127 * axis_ivec3(self).z) as i8,
            ],
    {
        let r: [i8; 3] = match self {
            Axis::PosX => [127, 0, 0],
            Axis::NegX => [-127, 0, 0],
            Axis::PosY => [0, 127, 0],
            Axis::NegY => [0, -127, 0],
            Axis::PosZ => [0, 0, 127],
            Axis::NegZ => [0, 0, -127],
        };
        assert(r@ =~= seq![
            (127 * axis_ivec3(self).x) as i8,
            (127 * axis_ivec3(self).y) as i8,
            (127 * axis_ivec3(self).z) as i8,
        ]);
        r
    }

    /// All six axes, in order.
    pub fn all() -> (r: [Axis; 6])
        ensures
            forall|i: int| 0 <= i < 6 ==> #[trigger] r@[i] == axis_at(i),
            r@.len() == 6,
    {
        [Axis::PosX, Axis::NegX, Axis::PosY, Axis::NegY, Axis::PosZ, Axis::NegZ]
    }

    /// The position one step from rhs in the direction of this axis.
    pub fn add(self, rhs: IVec3) -> (r: IVec3)
        requires
            i32::MIN < rhs.x < i32::MAX,
            i32::MIN < rhs.y < i32::MAX,
            i32::MIN < rhs.z < i32::MAX,
        ensures
            r.x == rhs.x + axis_ivec3(self).x,
            r.y == rhs.y + axis_ivec3(self).y,
            r.z == rhs.z + axis_ivec3(self).z,
    {
        let d = self.as_ivec3();
        IVec3 { x: rhs.x + d.x, y: rhs.y + d.y, z: rhs.z + d.z }
    }
}

/// Inverting twice gives the axis back, and the inverse lies on the same line.
pub proof fn lemma_invert_involution(a: Axis)
    ensures
        axis_inverse(axis_inverse(a)) == a,
        axis_inverse(a) != a,
        axis_index(axis_inverse(a)) / 2 == axis_index(a) / 2,
{
}

/// Six steps of `next` come back to the start, visiting every axis on the way.
pub proof fn lemma_next_cycles(a: Axis)
    ensures
        axis_at((axis_index(a) + 6) as int % 6) == a,
        forall|k: int| 0 <= k < 6 ==> #[trigger] axis_index(axis_at((axis_index(a) + k) % 6)) == (axis_index(a) + k) % 6,
{
}

/// Each axis is read back from either of its names.
pub proof fn lemma_axis_name_roundtrip(a: Axis)
    ensures
        axis_from_text(axis_str(a)) == Some(a),
        axis_from_text(axis_dir_str(a)) == Some(a),
{
    lemma_axis_names();
}

/// Whether bit i of m is set.
pub open spec fn bit_of(m: u8, i: int) -> bool {
    (m >> (i as u8)) & 1u8 == 1u8
}

/// Facts about the six low bits of a byte.
proof fn lemma_six_bits(a: u8, b: u8, i: u8, k: u8)
    by (bit_vector)
    ensures
        i < 6 ==> ((((a | b) >> i) & 1u8 == 1u8) == (((a >> i) & 1u8 == 1u8) || ((b >> i) & 1u8 == 1u8))),
        i < 6 ==> ((((a & b) >> i) & 1u8 == 1u8) == (((a >> i) & 1u8 == 1u8) && ((b >> i) & 1u8 == 1u8))),
        i < 6 ==> ((((a ^ b) >> i) & 1u8 == 1u8) == (((a >> i) & 1u8 == 1u8) != ((b >> i) & 1u8 == 1u8))),
        i < 6 ==> ((((!a & 63u8) >> i) & 1u8 == 1u8) == !((a >> i) & 1u8 == 1u8)),
        i < 6 && k < 6 ==> ((((a | (1u8 << k)) >> i) & 1u8 == 1u8) == (i == k || ((a >> i) & 1u8 == 1u8))),
        i < 6 && k < 6 ==> ((((a & (1u8 << k)) >> i) & 1u8 == 1u8) == (i == k && ((a >> i) & 1u8 == 1u8))),
        i < 6 && k < 6 ==> ((((a ^ (1u8 << k)) >> i) & 1u8 == 1u8) == ((i == k) != ((a >> i) & 1u8 == 1u8))),
        k < 6 ==> (((a & (1u8 << k)) != 0u8) == ((a >> k) & 1u8 == 1u8)),
        a < 64 && b < 64 ==> (a | b) < 64 && (a & b) < 64 && (a ^ b) < 64,
        a < 64 && k < 6 ==> (a | (1u8 << k)) < 64 && (a & (1u8 << k)) < 64 && (a ^ (1u8 << k)) < 64,
        (!a & 63u8) < 64,
        a < 64 && 6 <= i < 8 ==> (a >> i) & 1u8 == 0u8,
        a < 64 ==> ((a == 0u8) == (!((a >> 0u8) & 1u8 == 1u8) && !((a >> 1u8) & 1u8 == 1u8) && !((a >> 2u8)
            & 1u8 == 1u8) && !((a >> 3u8) & 1u8 == 1u8) && !((a >> 4u8) & 1u8 == 1u8) && !((a >> 5u8) & 1u8
            == 1u8))),
        a < 64 ==> ((a == 63u8) == (((a >> 0u8) & 1u8 == 1u8) && ((a >> 1u8) & 1u8 == 1u8) && ((a >> 2u8)
            & 1u8 == 1u8) && ((a >> 3u8) & 1u8 == 1u8) && ((a >> 4u8) & 1u8 == 1u8) && ((a >> 5u8) & 1u8
            == 1u8))),
        i < 6 ==> ((((21u8 >> i) & 1u8) == 1u8) == (i == 0 || i == 2 || i == 4)),
        i < 6 ==> ((((42u8 >> i) & 1u8) == 1u8) == (i == 1 || i == 3 || i == 5)),
        i < 6 ==> ((((51u8 >> i) & 1u8) == 1u8) == (i == 0 || i == 1 || i == 4 || i == 5)),
        i < 6 ==> ((((12u8 >> i) & 1u8) == 1u8) == (i == 2 || i == 3)),
        i < 6 ==> ((((3u8 >> i) & 1u8) == 1u8) == (i == 0 || i == 1)),
        i < 6 ==> ((((48u8 >> i) & 1u8) == 1u8) == (i == 4 || i == 5)),
        i < 6 ==> ((((63u8 >> i) & 1u8) == 1u8) == true),
        ((((0u8 >> i) & 1u8) == 1u8) == false),
{
}

/// How many of the first n flags are set.
pub open spec fn count_set(s: Seq<bool>, n: nat) -> nat
    decreases n,
{
    if n == 0 {
        0
    } else {
        count_set(s, (n - 1) as nat) + if s[n - 1] { 1nat } else { 0nat }
    }
}

/// A flag for each of the 6 axes.
#[derive(Copy, Clone, Eq, PartialEq, Debug, Hash, Structural)]
pub struct AxisMask(u8);

impl AxisMask {
    #[verifier::type_invariant]
    spec fn in_range(self) -> bool {
        self.0 < 64
    }

    /// The flag of each axis, by its number.
    pub closed spec fn view(&self) -> Seq<bool> {
        Seq::new(6, |i: int| bit_of(self.0, i))
    }

    /// The mask with the given bits has flag i set where `p(i)` holds.
    proof fn lemma_flags(m: u8, p: spec_fn(int) -> bool)
        requires
            forall|i: u8| i < 6 ==> #[trigger] p(i as int) == ((m >> i) & 1u8 == 1u8),
        ensures
            (AxisMask(m))@ == Seq::new(6, p),
    {
        assert forall|j: int| 0 <= j < 6 implies (AxisMask(m))@[j] == p(j) by {
            let i = j as u8;
            assert(p(i as int) == ((m >> i) & 1u8 == 1u8));
        }
        assert((AxisMask(m))@ =~= Seq::new(6, p));
    }

    /// A mask with the given bits, which are those of the flags `p`.
    fn literal(m: u8, Ghost(p): Ghost<spec_fn(int) -> bool>) -> (r: AxisMask)
        requires
            m < 64,
            forall|i: u8| i < 6 ==> #[trigger] p(i as int) == ((m >> i) & 1u8 == 1u8),
        ensures
            r@ == Seq::new(6, p),
            r.0 == m,
    {
        proof {
            Self::lemma_flags(m, p);
        }
        AxisMask(m)
    }

    /// Mask with PosX, PosY, PosZ.
    pub fn positive() -> (r: AxisMask)
        ensures
            r@ == Seq::new(6, |i: int| i == 0 || i == 2 || i == 4),
    {
        proof {
            assert forall|i: u8| i < 6 implies (i == 0 || i == 2 || i == 4) == ((21u8 >> i) & 1u8 == 1u8) by {
                lemma_six_bits(0, 0, i, 0);
            }
        }
        Self::literal(0b010101, Ghost(|i: int| i == 0 || i == 2 || i == 4))
    }

    /// Mask with NegX, NegY, NegZ.
    pub fn negative() -> (r: AxisMask)
        ensures
            r@ == Seq::new(6, |i: int| i == 1 || i == 3 || i == 5),
    {
        proof {
            assert forall|i: u8| i < 6 implies (i == 1 || i == 3 || i == 5) == ((42u8 >> i) & 1u8 == 1u8) by {
                lemma_six_bits(0, 0, i, 0);
            }
        }
        Self::literal(0b101010, Ghost(|i: int| i == 1 || i == 3 || i == 5))
    }

    /// Mask with PosX, NegX, PosZ, NegZ.
    pub fn horizontal() -> (r: AxisMask)
        ensures
            r@ == Seq::new(6, |i: int| i == 0 || i == 1 || i == 4 || i == 5),
    {
        proof {
            assert forall|i: u8| i < 6 implies (i == 0 || i == 1 || i == 4 || i == 5) == ((51u8 >> i) & 1u8 == 1u8) by {
                lemma_six_bits(0, 0, i, 0);
            }
        }
        Self::literal(0b110011, Ghost(|i: int| i == 0 || i == 1 || i == 4 || i == 5))
    }

    /// Mask with PosY, NegY.
    pub fn vertical() -> (r: AxisMask)
        ensures
            r@ == Seq::new(6, |i: int| i == 2 || i == 3),
    {
        proof {
            assert forall|i: u8| i < 6 implies (i == 2 || i == 3) == ((12u8 >> i) & 1u8 == 1u8) by {
                lemma_six_bits(0, 0, i, 0);
            }
        }
        Self::literal(0b001100, Ghost(|i: int| i == 2 || i == 3))
    }

    /// Mask with PosX, NegX.
    pub fn x() -> (r: AxisMask)
        ensures
            r@ == Seq::new(6, |i: int| i == 0 || i == 1),
    {
        proof {
            assert forall|i: u8| i < 6 implies (i == 0 || i == 1) == ((3u8 >> i) & 1u8 == 1u8) by {
                lemma_six_bits(0, 0, i, 0);
            }
        }
        Self::literal(0b000011, Ghost(|i: int| i == 0 || i == 1))
    }

    /// Mask with PosY, NegY.
    pub fn y() -> (r: AxisMask)
        ensures
            r@ == Seq::new(6, |i: int| i == 2 || i == 3),
    {
        proof {
            assert forall|i: u8| i < 6 implies (i == 2 || i == 3) == ((12u8 >> i) & 1u8 == 1u8) by {
                lemma_six_bits(0, 0, i, 0);
            }
        }
        Self::literal(0b001100, Ghost(|i: int| i == 2 || i == 3))
    }

    /// Mask with PosZ, NegZ.
    pub fn z() -> (r: AxisMask)
        ensures
            r@ == Seq::new(6, |i: int| i == 4 || i == 5),
    {
        proof {
            assert forall|i: u8| i < 6 implies (i == 4 || i == 5) == ((48u8 >> i) & 1u8 == 1u8) by {
                lemma_six_bits(0, 0, i, 0);
            }
        }
        Self::literal(0b110000, Ghost(|i: int| i == 4 || i == 5))
    }

    /// A new empty mask.
    pub fn empty() -> (r: AxisMask)
        ensures
            r@ == Seq::new(6, |i: int| false),
    {
        proof {
            assert forall|i: u8| i < 6 implies false == ((0u8 >> i) & 1u8 == 1u8) by {
                lemma_six_bits(0, 0, i, 0);
            }
        }
        Self::literal(0, Ghost(|i: int| false))
    }

    /// A mask with all axes set.
    pub fn full() -> (r: AxisMask)
        ensures
            r@ == Seq::new(6, |i: int| true),
    {
        proof {
            assert forall|i: u8| i < 6 implies true == ((63u8 >> i) & 1u8 == 1u8) by {
                lemma_six_bits(0, 0, i, 0);
            }
        }
        Self::literal(0b111111, Ghost(|i: int| true))
    }

    /// Whether no axis is set.
    pub fn is_empty(self) -> (r: bool)
        ensures
            r == (forall|i: int| 0 <= i < 6 ==> !#[trigger] self@[i]),
    {
        proof {
            use_type_invariant(&self);
            lemma_six_bits(self.0, 0, 0, 0);
            if !(forall|i: int| 0 <= i < 6 ==> !#[trigger] self@[i]) {
                let i = choose|i: int| 0 <= i < 6 && #[trigger] self@[i];
                assert(self@[i]);
                assert(i == 0 || i == 1 || i == 2 || i == 3 || i == 4 || i == 5);
            } else {
                assert(!self@[0] && !self@[1] && !self@[2] && !self@[3] && !self@[4] && !self@[5]);
            }
        }
        self.0 == 0
    }

    /// Whether the mask has this axis set.
    pub fn has(self, axis: Axis) -> (r: bool)
        ensures
            r == self@[axis_index(axis) as int],
    {
        let k = axis.as_u8();
        proof {
            lemma_six_bits(self.0, 0, k, k);
        }
        self.0 & (1 << k) != 0
    }

    /// Whether every axis is set.
    pub fn is_all_set(self) -> (r: bool)
        ensures
            r == (forall|i: int| 0 <= i < 6 ==> #[trigger] self@[i]),
    {
        proof {
            use_type_invariant(&self);
            lemma_six_bits(self.0, 0, 0, 0);
            if !(forall|i: int| 0 <= i < 6 ==> #[trigger] self@[i]) {
                let i = choose|i: int| 0 <= i < 6 && !#[trigger] self@[i];
                assert(!self@[i]);
                assert(i == 0 || i == 1 || i == 2 || i == 3 || i == 4 || i == 5);
            } else {
                assert(self@[0] && self@[1] && self@[2] && self@[3] && self@[4] && self@[5]);
            }
        }
        self.0 == 0b111111
    }

    /// The number of set axes.
    pub fn count_ones(self) -> (r: u32)
        ensures
            r == count_set(self@, 6),
    {
        let mut n: u32 = 0;
        let mut i: u8 = 0;
        while i < 6
            invariant
                i <= 6,
                n == count_set(self@, i as nat),
                n <= i,
            decreases 6 - i,
        {
            proof {
                lemma_six_bits(self.0, 0, i, i);
            }
            if (self.0 >> i) & 1 == 1 {
                n = n + 1;
            }
            i = i + 1;
        }
        n
    }

    /// The number of unset axes.
    pub fn count_zeros(self) -> (r: u32)
        ensures
            r == 6 - count_set(self@, 6),
    {
        proof {
            lemma_count_set_bound(self@, 6);
        }
        6 - self.count_ones()
    }

    /// An iterator over the set axes, in ascending order.
    pub fn iter(&self) -> (r: AxisMaskIter)
        ensures
            r@ == self@,
    {
        self.into_iter()
    }

    /// An iterator over the set axes, in ascending order.
    pub fn into_iter(self) -> (r: AxisMaskIter)
        ensures
            r@ == self@,
    {
        proof {
            use_type_invariant(&self);
        }
        AxisMaskIter(self.0)
    }

    /// The axes not set in self.
    pub fn not(self) -> (r: AxisMask)
        ensures
            r@ == Seq::new(6, |i: int| !self@[i]),
    {
        let m = !self.0 & 0b111111;
        proof {
            lemma_six_bits(self.0, 0, 0, 0);
            assert forall|i: u8| i < 6 implies (!self@[i as int]) == ((m >> i) & 1u8 == 1u8) by {
                lemma_six_bits(self.0, 0, i, 0);
            }
        }
        Self::literal(m, Ghost(|i: int| !self@[i]))
    }

    /// The axes set in self or rhs.
    pub fn bitor(self, rhs: AxisMask) -> (r: AxisMask)
        ensures
            r@ == Seq::new(6, |i: int| self@[i] || rhs@[i]),
    {
        let m = self.0 | rhs.0;
        proof {
            use_type_invariant(&self);
            use_type_invariant(&rhs);
            lemma_six_bits(self.0, rhs.0, 0, 0);
            assert forall|i: u8| i < 6 implies (self@[i as int] || rhs@[i as int]) == ((m >> i) & 1u8 == 1u8) by {
                lemma_six_bits(self.0, rhs.0, i, 0);
            }
        }
        Self::literal(m, Ghost(|i: int| self@[i] || rhs@[i]))
    }

    /// Set the axes set in rhs too.
    pub fn bitor_assign(&mut self, rhs: AxisMask)
        ensures
            final(self)@ == Seq::new(6, |i: int| old(self)@[i] || rhs@[i]),
    {
        *self = self.bitor(rhs);
    }

    /// The axes set in self, and the axis rhs.
    pub fn bitor_axis(self, rhs: Axis) -> (r: AxisMask)
        ensures
            r@ == self@.update(axis_index(rhs) as int, true),
    {
        let k = rhs.as_u8();
        let m = self.0 | (1 << k);
        proof {
            use_type_invariant(&self);
            lemma_six_bits(self.0, 0, 0, k);
            assert forall|i: u8| i < 6 implies self@.update(k as int, true)[i as int] == ((m >> i) & 1u8 == 1u8) by {
                lemma_six_bits(self.0, 0, i, k);
            }
        }
        let r = Self::literal(m, Ghost(|i: int| self@.update(k as int, true)[i]));
        assert(r@ =~= self@.update(k as int, true));
        r
    }

    /// Set the axis rhs.
    pub fn bitor_assign_axis(&mut self, rhs: Axis)
        ensures
            final(self)@ == old(self)@.update(axis_index(rhs) as int, true),
    {
        *self = self.bitor_axis(rhs);
    }

    /// The axes set in both self and rhs.
    pub fn bitand(self, rhs: AxisMask) -> (r: AxisMask)
        ensures
            r@ == Seq::new(6, |i: int| self@[i] && rhs@[i]),
    {
        let m = self.0 & rhs.0;
        proof {
            use_type_invariant(&self);
            use_type_invariant(&rhs);
            lemma_six_bits(self.0, rhs.0, 0, 0);
            assert forall|i: u8| i < 6 implies (self@[i as int] && rhs@[i as int]) == ((m >> i) & 1u8 == 1u8) by {
                lemma_six_bits(self.0, rhs.0, i, 0);
            }
        }
        Self::literal(m, Ghost(|i: int| self@[i] && rhs@[i]))
    }

    /// Keep only the axes also set in rhs.
    pub fn bitand_assign(&mut self, rhs: AxisMask)
        ensures
            final(self)@ == Seq::new(6, |i: int| old(self)@[i] && rhs@[i]),
    {
        *self = self.bitand(rhs);
    }

    /// The axis rhs, if it is set in self; no other axis.
    pub fn bitand_axis(self, rhs: Axis) -> (r: AxisMask)
        ensures
            r@ == Seq::new(6, |i: int| i == axis_index(rhs) && self@[i]),
    {
        let k = rhs.as_u8();
        let m = self.0 & (1 << k);
        let ghost p = |i: int| i == axis_index(rhs) && self@[i];
        proof {
            use_type_invariant(&self);
            lemma_six_bits(self.0, 0, 0, k);
            assert forall|i: u8| i < 6 implies #[trigger] p(i as int) == ((m >> i) & 1u8 == 1u8) by {
                lemma_six_bits(self.0, 0, i, k);
                assert(self@[i as int] == ((self.0 >> i) & 1u8 == 1u8));
            }
        }
        Self::literal(m, Ghost(p))
    }

    /// Keep only the axis rhs, if it is set.
    pub fn bitand_assign_axis(&mut self, rhs: Axis)
        ensures
            final(self)@ == Seq::new(6, |i: int| i == axis_index(rhs) && old(self)@[i]),
    {
        *self = self.bitand_axis(rhs);
    }

    /// The axes set in exactly one of self and rhs.
    pub fn bitxor(self, rhs: AxisMask) -> (r: AxisMask)
        ensures
            r@ == Seq::new(6, |i: int| self@[i] != rhs@[i]),
    {
        let m = self.0 ^ rhs.0;
        proof {
            use_type_invariant(&self);
            use_type_invariant(&rhs);
            lemma_six_bits(self.0, rhs.0, 0, 0);
            assert forall|i: u8| i < 6 implies (self@[i as int] != rhs@[i as int]) == ((m >> i) & 1u8 == 1u8) by {
                lemma_six_bits(self.0, rhs.0, i, 0);
            }
        }
        Self::literal(m, Ghost(|i: int| self@[i] != rhs@[i]))
    }

    /// Flip the axes set in rhs.
    pub fn bitxor_assign(&mut self, rhs: AxisMask)
        ensures
            final(self)@ == Seq::new(6, |i: int| old(self)@[i] != rhs@[i]),
    {
        *self = self.bitxor(rhs);
    }

    /// The axes of self with the axis rhs flipped.
    pub fn bitxor_axis(self, rhs: Axis) -> (r: AxisMask)
        ensures
            r@ == self@.update(axis_index(rhs) as int, !self@[axis_index(rhs) as int]),
    {
        let k = rhs.as_u8();
        let m = self.0 ^ (1 << k);
        proof {
            use_type_invariant(&self);
            lemma_six_bits(self.0, 0, 0, k);
            assert forall|i: u8| i < 6 implies self@.update(k as int, !self@[k as int])[i as int] == ((m >> i)
                & 1u8 == 1u8) by {
                lemma_six_bits(self.0, 0, i, k);
            }
        }
        let r = Self::literal(m, Ghost(|i: int| self@.update(k as int, !self@[k as int])[i]));
        assert(r@ =~= self@.update(k as int, !self@[k as int]));
        r
    }

    /// Flip the axis rhs.
    pub fn bitxor_assign_axis(&mut self, rhs: Axis)
        ensures
            final(self)@ == old(self)@.update(axis_index(rhs) as int, !old(self)@[axis_index(rhs) as int]),
    {
        *self = self.bitxor_axis(rhs);
    }
}

/// At most n of the first n flags are set.
pub proof fn lemma_count_set_bound(s: Seq<bool>, n: nat)
    ensures
        count_set(s, n) <= n,
    decreases n,
{
    if n > 0 {
        lemma_count_set_bound(s, (n - 1) as nat);
    }
}

/// Iterator over the axes set in a mask, in ascending order.
#[derive(Copy, Clone)]
pub struct AxisMaskIter(u8);

impl AxisMaskIter {
    #[verifier::type_invariant]
    spec fn in_range(self) -> bool {
        self.0 < 64
    }

    /// The axes not yet visited, as flags.
    pub closed spec fn view(&self) -> Seq<bool> {
        Seq::new(6, |i: int| bit_of(self.0, i))
    }

    /// The lowest axis not yet visited, or None when all have been.
    pub fn next(&mut self) -> (r: Option<Axis>)
        ensures
            r is None <==> (forall|i: int| 0 <= i < 6 ==> !#[trigger] old(self)@[i]),
            r is None ==> final(self)@ == old(self)@,
            r is Some ==> {
                let k = axis_index(r.unwrap()) as int;
                &&& old(self)@[k]
                &&& forall|j: int| 0 <= j < k ==> !#[trigger] old(self)@[j]
                &&& final(self)@ == old(self)@.update(k, false)
            },
    {
        proof {
            use_type_invariant(&*self);
        }
        let bits = self.0;
        let j = bits.trailing_zeros();
        proof {
            vstd::std_specs::bits::axiom_u8_trailing_zeros(bits);
            lemma_six_bits(bits, 0, 0, 0);
        }
        if j == 8 {
            proof {
                assert forall|i: int| 0 <= i < 6 implies !#[trigger] old(self)@[i] by {
                    lemma_six_bits(bits, 0, i as u8, 0);
                }
            }
            None
        } else {
            let k = j as u8;
            proof {
                if k >= 6 {
                    lemma_six_bits(bits, 0, k, 0);
                }
                assert(k < 6);
            }
            proof {
                lemma_six_bits(bits, 0, 0, k);
                assert(k == vstd::std_specs::bits::u8_trailing_zeros(bits) as u8);
                assert(bit_of(bits, k as int));
                assert(old(self)@[k as int]);
            }
            self.0 = bits ^ (1 << k);
            proof {
                assert forall|i: int| 0 <= i < 6 implies #[trigger] self@[i] == old(self)@.update(k as int, false)[i] by {
                    lemma_six_bits(bits, 0, i as u8, k);
                }
                assert(self@ =~= old(self)@.update(k as int, false));
                assert forall|jj: int| 0 <= jj < k implies !#[trigger] old(self)@[jj] by {
                    assert((bits >> (jj as u8)) & 1u8 == 0u8);
                }
            }
            Some(Axis::from_u8_unchecked(k))
        }
    }
}

/// Calls `<Vec<T> as From<[T; 6]>>::from`: a vector holding the array's elements in order.
#[verifier::external_body]
fn array_into_vec<T>(a: [T; 6]) -> (r: Vec<T>)
    ensures
        r@ == a@,
{
    Vec::from(a)
}

/// Storage for one element per axis, by axis number.
#[derive(Copy, Clone, Eq, PartialEq, Hash, Debug, Default)]
pub struct AxisArray<T>([T; 6]);

impl<T> AxisArray<T> {
    /// The elements, by axis number.
    pub closed spec fn view(&self) -> Seq<T> {
        self.0@
    }

    pub proof fn lemma_len(&self)
        ensures
            self@.len() == 6,
    {
    }

    /// An axis array holding these elements.
    pub fn new(axes: [T; 6]) -> (r: AxisArray<T>)
        ensures
            r@ == axes@,
    {
        AxisArray(axes)
    }

    /// An axis array whose element for each axis is what `f` gives for it.
    pub fn from_fn<F: Fn(Axis) -> T>(f: F) -> (r: AxisArray<T>)
        requires
            forall|a: Axis| #[trigger] f.requires((a,)),
        ensures
            forall|i: int| 0 <= i < 6 ==> f.ensures((axis_at(i),), #[trigger] r@[i]),
    {
        AxisArray([f(Axis::PosX), f(Axis::NegX), f(Axis::PosY), f(Axis::NegY), f(Axis::PosZ), f(Axis::NegZ)])
    }

    /// An axis array whose element for each axis is what `f` gives for the axis and its element
    /// here.
    pub fn map<K, F: Fn(Axis, T) -> K>(self, f: F) -> (r: AxisArray<K>)
        requires
            forall|a: Axis, t: T| #[trigger] f.requires((a, t)),
        ensures
            forall|i: int| 0 <= i < 6 ==> f.ensures((axis_at(i), self@[i]), #[trigger] r@[i]),
    {
        let mut v = array_into_vec(self.0);
        let g = v.pop().unwrap();
        let e = v.pop().unwrap();
        let d = v.pop().unwrap();
        let c = v.pop().unwrap();
        let b = v.pop().unwrap();
        let a = v.pop().unwrap();
        AxisArray([f(Axis::PosX, a), f(Axis::NegX, b), f(Axis::PosY, c), f(Axis::NegY, d), f(Axis::PosZ, e), f(Axis::NegZ, g)])
    }

    /// Always 6, because there are six axes.
    pub fn len(&self) -> (r: usize)
        ensures
            r == 6,
    {
        6
    }

    /// The elements as an array.
    pub fn to_array(self) -> (r: [T; 6])
        ensures
            r@ == self@,
    {
        self.0
    }

    /// The elements as a slice of length 6.
    pub fn as_slice(&self) -> (r: &[T])
        ensures
            r@ == self@,
    {
        self.0.as_slice()
    }

    /// The elements, by axis number.
    pub fn values(&self) -> (r: &[T])
        ensures
            r@ == self@,
    {
        self.as_slice()
    }

    /// The element of this axis.
    pub fn index(&self, axis: Axis) -> (r: &T)
        ensures
            *r == self@[axis_index(axis) as int],
    {
        &self.0[axis.as_u8() as usize]
    }

    /// The element of this axis, to change.
    pub fn index_mut(&mut self, axis: Axis) -> (r: &mut T)
        ensures
            *r == old(self)@[axis_index(axis) as int],
            final(self)@ == old(self)@.update(axis_index(axis) as int, *final(r)),
    {
        &mut self.0[axis.as_u8() as usize]
    }

    /// Each axis with its element, in axis order.
    pub fn iter(&self) -> (r: Vec<(Axis, &T)>)
        ensures
            r@.len() == 6,
            forall|i: int| 0 <= i < 6 ==> #[trigger] r@[i] == (axis_at(i), &self@[i]),
    {
        let mut out: Vec<(Axis, &T)> = Vec::new();
        let mut i: u8 = 0;
        while i < 6
            invariant
                i <= 6,
                self@.len() == 6,
                out@.len() == i,
                forall|j: int| 0 <= j < i ==> #[trigger] out@[j] == (axis_at(j), &self@[j]),
            decreases 6 - i,
        {
            out.push((Axis::from_u8_unchecked(i), &self.0[i as usize]));
            i = i + 1;
        }
        out
    }

    /// The axes set in the mask with their elements, in axis order.
    pub fn iter_in(&self, mask: AxisMask) -> (r: Vec<(Axis, &T)>)
        ensures
            r@ == set_pairs(self@, mask@, 6),
    {
        let mut out: Vec<(Axis, &T)> = Vec::new();
        let mut i: u8 = 0;
        while i < 6
            invariant
                i <= 6,
                self@.len() == 6,
                mask@.len() == 6,
                out@ == set_pairs(self@, mask@, i as nat),
            decreases 6 - i,
        {
            let a = Axis::from_u8_unchecked(i);
            if mask.has(a) {
                out.push((a, &self.0[i as usize]));
            }
            i = i + 1;
        }
        out
    }

    /// The elements of the axes set in the mask, in axis order.
    pub fn values_in(&self, mask: AxisMask) -> (r: Vec<&T>)
        ensures
            r@ == set_pairs(self@, mask@, 6).map_values(|p: (Axis, &T)| p.1),
    {
        let pairs = self.iter_in(mask);
        let mut out: Vec<&T> = Vec::new();
        let mut i: usize = 0;
        while i < pairs.len()
            invariant
                i <= pairs@.len(),
                out@ == pairs@.subrange(0, i as int).map_values(|p: (Axis, &T)| p.1),
            decreases pairs@.len() - i,
        {
            out.push(pairs[i].1);
            i = i + 1;
            assert(out@ =~= pairs@.subrange(0, i as int).map_values(|p: (Axis, &T)| p.1));
        }
        assert(pairs@.subrange(0, i as int) =~= pairs@);
        out
    }
}

impl<T: Clone> AxisArray<T> {
    /// The elements, cloned into a vector.
    pub fn to_vec(self) -> (r: Vec<T>)
        ensures
            r@.len() == 6,
            forall|i: int| 0 <= i < 6 ==> cloned::<T>(self@[i], #[trigger] r@[i]),
    {
        let mut out: Vec<T> = Vec::new();
        let mut i: usize = 0;
        while i < 6
            invariant
                i <= 6,
                self@.len() == 6,
                out@.len() == i,
                forall|j: int| 0 <= j < i ==> cloned::<T>(self@[j], #[trigger] out@[j]),
            decreases 6 - i,
        {
            out.push(self.0[i].clone());
            i = i + 1;
        }
        out
    }
}

/// The axes among the first n set in the mask, each with its element, in axis order.
pub open spec fn set_pairs<'a, T>(elems: Seq<T>, mask: Seq<bool>, n: nat) -> Seq<(Axis, &'a T)>
    decreases n,
{
    if n == 0 {
        Seq::empty()
    } else if mask[n - 1] {
        set_pairs(elems, mask, (n - 1) as nat).push((axis_at(n - 1), &elems[n - 1]))
    } else {
        set_pairs(elems, mask, (n - 1) as nat)
    }
}

/// An axis direction extended with the diagonals, for a total of 18 directions.
/// Does not include the corner directions.
#[derive(Copy, Clone, Eq, PartialEq, Debug, Hash, Structural)]
pub enum AxisExt {
    /// 1,0,0
    PosX,
    /// -1,0,0
    NegX,
    /// 0,1,0
    PosY,
    /// 0,-1,0
    NegY,
    /// 0,0,1
    PosZ,
    /// 0,0,-1
    NegZ,
    /// 1,1,0
    PosXPosY,
    /// -1,-1,0
    NegXNegY,
    /// 1,0,1
    PosXPosZ,
    /// -1,0,-1
    NegXNegZ,
    /// 1,-1,0
    PosXNegY,
    /// -1,1,0
    NegXPosY,
    /// 1,0,-1
    PosXNegZ,
    /// -1,0,1
    NegXPosZ,
    /// 0,1,1
    PosYPosZ,
    /// 0,-1,-1
    NegYNegZ,
    /// 0,1,-1
    PosYNegZ,
    /// 0,-1,1
    NegYPosZ,
}

/// The number of a direction, in declaration order.
pub open spec fn ext_index(a: AxisExt) -> nat {
    match a {
        AxisExt::PosX => 0,
        AxisExt::NegX => 1,
        AxisExt::PosY => 2,
        AxisExt::NegY => 3,
        AxisExt::PosZ => 4,
        AxisExt::NegZ => 5,
        AxisExt::PosXPosY => 6,
        AxisExt::NegXNegY => 7,
        AxisExt::PosXPosZ => 8,
        AxisExt::NegXNegZ => 9,
        AxisExt::PosXNegY => 10,
        AxisExt::NegXPosY => 11,
        AxisExt::PosXNegZ => 12,
        AxisExt::NegXPosZ => 13,
        AxisExt::PosYPosZ => 14,
        AxisExt::NegYNegZ => 15,
        AxisExt::PosYNegZ => 16,
        AxisExt::NegYPosZ => 17,
    }
}

/// The direction with number i, for i in 0..18.
pub open spec fn ext_at(i: int) -> AxisExt {
    if i == 0 {
        AxisExt::PosX
    } else if i == 1 {
        AxisExt::NegX
    } else if i == 2 {
        AxisExt::PosY
    } else if i == 3 {
        AxisExt::NegY
    } else if i == 4 {
        AxisExt::PosZ
    } else if i == 5 {
        AxisExt::NegZ
    } else if i == 6 {
        AxisExt::PosXPosY
    } else if i == 7 {
        AxisExt::NegXNegY
    } else if i == 8 {
        AxisExt::PosXPosZ
    } else if i == 9 {
        AxisExt::NegXNegZ
    } else if i == 10 {
        AxisExt::PosXNegY
    } else if i == 11 {
        AxisExt::NegXPosY
    } else if i == 12 {
        AxisExt::PosXNegZ
    } else if i == 13 {
        AxisExt::NegXPosZ
    } else if i == 14 {
        AxisExt::PosYPosZ
    } else if i == 15 {
        AxisExt::NegYNegZ
    } else if i == 16 {
        AxisExt::PosYNegZ
    } else {
        AxisExt::NegYPosZ
    }
}

/// The name of direction i: the signed axes, x before y before z, joined by a comma.
pub open spec fn ext_str(i: int) -> Seq<char> {
    if i == 0 {
        "+x"@
    } else if i == 1 {
        "-x"@
    } else if i == 2 {
        "+y"@
    } else if i == 3 {
        "-y"@
    } else if i == 4 {
        "+z"@
    } else if i == 5 {
        "-z"@
    } else if i == 6 {
        "+x,+y"@
    } else if i == 7 {
        "-x,-y"@
    } else if i == 8 {
        "+x,+z"@
    } else if i == 9 {
        "-x,-z"@
    } else if i == 10 {
        "+x,-y"@
    } else if i == 11 {
        "-x,+y"@
    } else if i == 12 {
        "+x,-z"@
    } else if i == 13 {
        "-x,+z"@
    } else if i == 14 {
        "+y,+z"@
    } else if i == 15 {
        "-y,-z"@
    } else if i == 16 {
        "+y,-z"@
    } else {
        "-y,+z"@
    }
}

/// The name of direction i with its axes in the other order.
pub open spec fn ext_rev_str(i: int) -> Seq<char> {
    if i == 0 {
        "+x"@
    } else if i == 1 {
        "-x"@
    } else if i == 2 {
        "+y"@
    } else if i == 3 {
        "-y"@
    } else if i == 4 {
        "+z"@
    } else if i == 5 {
        "-z"@
    } else if i == 6 {
        "+y,+x"@
    } else if i == 7 {
        "-y,-x"@
    } else if i == 8 {
        "+z,+x"@
    } else if i == 9 {
        "-z,-x"@
    } else if i == 10 {
        "-y,+x"@
    } else if i == 11 {
        "+y,-x"@
    } else if i == 12 {
        "-z,+x"@
    } else if i == 13 {
        "+z,-x"@
    } else if i == 14 {
        "+z,+y"@
    } else if i == 15 {
        "-z,-y"@
    } else if i == 16 {
        "-z,+y"@
    } else {
        "+z,-y"@
    }
}

/// The cardinal name of direction i.
pub open spec fn ext_dir_str(i: int) -> Seq<char> {
    if i == 0 {
        "east"@
    } else if i == 1 {
        "west"@
    } else if i == 2 {
        "up"@
    } else if i == 3 {
        "down"@
    } else if i == 4 {
        "north"@
    } else if i == 5 {
        "south"@
    } else if i == 6 {
        "east-up"@
    } else if i == 7 {
        "west-down"@
    } else if i == 8 {
        "north-east"@
    } else if i == 9 {
        "south-west"@
    } else if i == 10 {
        "east-down"@
    } else if i == 11 {
        "west-up"@
    } else if i == 12 {
        "south-west"@
    } else if i == 13 {
        "north-west"@
    } else if i == 14 {
        "north-up"@
    } else if i == 15 {
        "south-down"@
    } else if i == 16 {
        "south-up"@
    } else {
        "north-down"@
    }
}

/// The unit vector of a direction.
pub open spec fn ext_ivec3(a: AxisExt) -> IVec3 {
    match a {
        AxisExt::PosX => IVec3 { x: 1, y: 0, z: 0 },
        AxisExt::NegX => IVec3 { x: -1i32, y: 0, z: 0 },
        AxisExt::PosY => IVec3 { x: 0, y: 1, z: 0 },
        AxisExt::NegY => IVec3 { x: 0, y: -1i32, z: 0 },
        AxisExt::PosZ => IVec3 { x: 0, y: 0, z: 1 },
        AxisExt::NegZ => IVec3 { x: 0, y: 0, z: -1i32 },
        AxisExt::PosXPosY => IVec3 { x: 1, y: 1, z: 0 },
        AxisExt::NegXNegY => IVec3 { x: -1i32, y: -1i32, z: 0 },
        AxisExt::PosXPosZ => IVec3 { x: 1, y: 0, z: 1 },
        AxisExt::NegXNegZ => IVec3 { x: -1i32, y: 0, z: -1i32 },
        AxisExt::PosXNegY => IVec3 { x: 1, y: -1i32, z: 0 },
        AxisExt::NegXPosY => IVec3 { x: -1i32, y: 1, z: 0 },
        AxisExt::PosXNegZ => IVec3 { x: 1, y: 0, z: -1i32 },
        AxisExt::NegXPosZ => IVec3 { x: -1i32, y: 0, z: 1 },
        AxisExt::PosYPosZ => IVec3 { x: 0, y: 1, z: 1 },
        AxisExt::NegYNegZ => IVec3 { x: 0, y: -1i32, z: -1i32 },
        AxisExt::PosYNegZ => IVec3 { x: 0, y: 1, z: -1i32 },
        AxisExt::NegYPosZ => IVec3 { x: 0, y: -1i32, z: 1 },
    }
}

/// Whether s names direction i: by its name, its cardinal name, or, for a diagonal, its name
/// with the axes in the other order.
pub open spec fn ext_named(i: int, s: Seq<char>) -> bool {
    s == ext_str(i) || s == ext_dir_str(i) || (i > 5 && s == ext_rev_str(i))
}

/// The last direction below n that s names. Where two directions share a name, the later one
/// holds it.
pub open spec fn ext_lookup(s: Seq<char>, n: nat) -> Option<AxisExt>
    decreases n,
{
    if n == 0 {
        None
    } else if ext_named(n - 1, s) {
        Some(ext_at(n - 1))
    } else {
        ext_lookup(s, (n - 1) as nat)
    }
}

/// The direction that s names, if any.
pub open spec fn ext_from_text(s: Seq<char>) -> Option<AxisExt> {
    ext_lookup(s, 18)
}

/// The name of direction i.
fn ext_str_at(i: u8) -> (r: &'static str)
    requires
        i < 18,
    ensures
        r@ == ext_str(i as int),
{
    match i {
        0 => "+x",
        1 => "-x",
        2 => "+y",
        3 => "-y",
        4 => "+z",
        5 => "-z",
        6 => "+x,+y",
        7 => "-x,-y",
        8 => "+x,+z",
        9 => "-x,-z",
        10 => "+x,-y",
        11 => "-x,+y",
        12 => "+x,-z",
        13 => "-x,+z",
        14 => "+y,+z",
        15 => "-y,-z",
        16 => "+y,-z",
        _ => "-y,+z",
    }
}

/// The name of direction i with its axes in the other order.
fn ext_rev_str_at(i: u8) -> (r: &'static str)
    requires
        i < 18,
    ensures
        r@ == ext_rev_str(i as int),
{
    match i {
        0 => "+x",
        1 => "-x",
        2 => "+y",
        3 => "-y",
        4 => "+z",
        5 => "-z",
        6 => "+y,+x",
        7 => "-y,-x",
        8 => "+z,+x",
        9 => "-z,-x",
        10 => "-y,+x",
        11 => "+y,-x",
        12 => "-z,+x",
        13 => "+z,-x",
        14 => "+z,+y",
        15 => "-z,-y",
        16 => "-z,+y",
        _ => "+z,-y",
    }
}

/// The cardinal name of direction i.
fn ext_dir_str_at(i: u8) -> (r: &'static str)
    requires
        i < 18,
    ensures
        r@ == ext_dir_str(i as int),
{
    match i {
        0 => "east",
        1 => "west",
        2 => "up",
        3 => "down",
        4 => "north",
        5 => "south",
        6 => "east-up",
        7 => "west-down",
        8 => "north-east",
        9 => "south-west",
        10 => "east-down",
        11 => "west-up",
        12 => "south-west",
        13 => "north-west",
        14 => "north-up",
        15 => "south-down",
        16 => "south-up",
        _ => "north-down",
    }
}

impl AxisExt {
    /// The number of this direction.
    pub fn as_u8(self) -> (r: u8)
        ensures
            r == ext_index(self),
    {
        match self {
            AxisExt::PosX => 0,
            AxisExt::NegX => 1,
            AxisExt::PosY => 2,
            AxisExt::NegY => 3,
            AxisExt::PosZ => 4,
            AxisExt::NegZ => 5,
            AxisExt::PosXPosY => 6,
            AxisExt::NegXNegY => 7,
            AxisExt::PosXPosZ => 8,
            AxisExt::NegXNegZ => 9,
            AxisExt::PosXNegY => 10,
            AxisExt::NegXPosY => 11,
            AxisExt::PosXNegZ => 12,
            AxisExt::NegXPosZ => 13,
            AxisExt::PosYPosZ => 14,
            AxisExt::NegYNegZ => 15,
            AxisExt::PosYNegZ => 16,
            AxisExt::NegYPosZ => 17,
        }
    }

    /// The direction with number u, which must be in the range [0,18).
    pub fn from_u8_unchecked(u: u8) -> (r: AxisExt)
        requires
            u < 18,
        ensures
            r == ext_at(u as int),
            ext_index(r) == u,
    {
        match u {
            0 => AxisExt::PosX,
            1 => AxisExt::NegX,
            2 => AxisExt::PosY,
            3 => AxisExt::NegY,
            4 => AxisExt::PosZ,
            5 => AxisExt::NegZ,
            6 => AxisExt::PosXPosY,
            7 => AxisExt::NegXNegY,
            8 => AxisExt::PosXPosZ,
            9 => AxisExt::NegXNegZ,
            10 => AxisExt::PosXNegY,
            11 => AxisExt::NegXPosY,
            12 => AxisExt::PosXNegZ,
            13 => AxisExt::NegXPosZ,
            14 => AxisExt::PosYPosZ,
            15 => AxisExt::NegYNegZ,
            16 => AxisExt::PosYNegZ,
            _ => AxisExt::NegYPosZ,
        }
    }

    /// The direction with number u; None if u is not in the range [0,18).
    pub fn from_u8(u: u8) -> (r: Option<AxisExt>)
        ensures
            r is Some <==> u < 18,
            r is Some ==> r.unwrap() == ext_at(u as int),
    {
        if u > 17 {
            None
        } else {
            Some(Self::from_u8_unchecked(u))
        }
    }

    /// The opposite direction: the one whose number differs in the lowest bit.
    pub fn invert(self) -> (r: AxisExt)
        ensures
            ext_index(r) == (if ext_index(self) % 2 == 0 { ext_index(self) as int + 1 } else { ext_index(self) as int - 1 }),
            ext_ivec3(r).x == -ext_ivec3(self).x,
            ext_ivec3(r).y == -ext_ivec3(self).y,
            ext_ivec3(r).z == -ext_ivec3(self).z,
    {
        match self {
            AxisExt::PosX => AxisExt::NegX,
            AxisExt::NegX => AxisExt::PosX,
            AxisExt::PosY => AxisExt::NegY,
            AxisExt::NegY => AxisExt::PosY,
            AxisExt::PosZ => AxisExt::NegZ,
            AxisExt::NegZ => AxisExt::PosZ,
            AxisExt::PosXPosY => AxisExt::NegXNegY,
            AxisExt::NegXNegY => AxisExt::PosXPosY,
            AxisExt::PosXPosZ => AxisExt::NegXNegZ,
            AxisExt::NegXNegZ => AxisExt::PosXPosZ,
            AxisExt::PosXNegY => AxisExt::NegXPosY,
            AxisExt::NegXPosY => AxisExt::PosXNegY,
            AxisExt::PosXNegZ => AxisExt::NegXPosZ,
            AxisExt::NegXPosZ => AxisExt::PosXNegZ,
            AxisExt::PosYPosZ => AxisExt::NegYNegZ,
            AxisExt::NegYNegZ => AxisExt::PosYPosZ,
            AxisExt::PosYNegZ => AxisExt::NegYPosZ,
            AxisExt::NegYPosZ => AxisExt::PosYNegZ,
        }
    }

    /// The unit vector of this direction.
    pub fn as_ivec3(self) -> (r: IVec3)
        ensures
            r == ext_ivec3(self),
    {
        match self {
            AxisExt::PosX => IVec3 { x: 1, y: 0, z: 0 },
            AxisExt::NegX => IVec3 { x: -1, y: 0, z: 0 },
            AxisExt::PosY => IVec3 { x: 0, y: 1, z: 0 },
            AxisExt::NegY => IVec3 { x: 0, y: -1, z: 0 },
            AxisExt::PosZ => IVec3 { x: 0, y: 0, z: 1 },
            AxisExt::NegZ => IVec3 { x: 0, y: 0, z: -1 },
            AxisExt::PosXPosY => IVec3 { x: 1, y: 1, z: 0 },
            AxisExt::NegXNegY => IVec3 { x: -1, y: -1, z: 0 },
            AxisExt::PosXPosZ => IVec3 { x: 1, y: 0, z: 1 },
            AxisExt::NegXNegZ => IVec3 { x: -1, y: 0, z: -1 },
            AxisExt::PosXNegY => IVec3 { x: 1, y: -1, z: 0 },
            AxisExt::NegXPosY => IVec3 { x: -1, y: 1, z: 0 },
            AxisExt::PosXNegZ => IVec3 { x: 1, y: 0, z: -1 },
            AxisExt::NegXPosZ => IVec3 { x: -1, y: 0, z: 1 },
            AxisExt::PosYPosZ => IVec3 { x: 0, y: 1, z: 1 },
            AxisExt::NegYNegZ => IVec3 { x: 0, y: -1, z: -1 },
            AxisExt::PosYNegZ => IVec3 { x: 0, y: 1, z: -1 },
            AxisExt::NegYPosZ => IVec3 { x: 0, y: -1, z: 1 },
        }
    }

    /// The direction named s, by its name, cardinal name, or reversed name.
    pub fn from_str(s: &str) -> (r: Option<AxisExt>)
        ensures
            r == ext_from_text(s@),
    {
        let mut i: u8 = 18;
        while i > 0
            invariant
                i <= 18,
                ext_lookup(s@, 18) == ext_lookup(s@, i as nat),
            decreases i,
        {
            let j = i - 1;
            if same_text(s, ext_str_at(j)) || same_text(s, ext_dir_str_at(j)) || (j > 5 && same_text(s,
                ext_rev_str_at(j))) {
                return Some(Self::from_u8_unchecked(j));
            }
            i = j;
        }
        None
    }

    /// The name of this direction, such as "+x,-z" for PosXNegZ: x always comes before y and
    /// z, and y before z.
    pub fn as_str(self) -> (r: &'static str)
        ensures
            r@ == ext_str(ext_index(self) as int),
    {
        ext_str_at(self.as_u8())
    }

    /// The cardinal name of this direction, such as "south-up" for PosYNegZ.
    pub fn as_dir_str(self) -> (r: &'static str)
        ensures
            r@ == ext_dir_str(ext_index(self) as int),
    {
        ext_dir_str_at(self.as_u8())
    }

    /// The direction named s, or a message naming the text that names none.
    pub fn try_from(s: &str) -> (r: Result<AxisExt, String>)
        ensures
            r is Ok <==> ext_from_text(s@) is Some,
            r is Ok ==> r->Ok_0 == ext_from_text(s@).unwrap(),
            r is Err ==> r->Err_0@ == "Cannot convert axis string '"@ + s@ + "' to AxisExt."@,
    {
        match Self::from_str(s) {
            Some(a) => Ok(a),
            None => Err(String::from_str("Cannot convert axis string '").concat(s).concat("' to AxisExt.")),
        }
    }

    /// The direction of an axis.
    pub fn from_axis(value: Axis) -> (r: AxisExt)
        ensures
            ext_index(r) == axis_index(value),
            ext_ivec3(r) == axis_ivec3(value),
    {
        Self::from_u8_unchecked(value.as_u8())
    }
}

/// Whether bit i of m is set.
pub open spec fn bit32_of(m: u32, i: int) -> bool {
    (m >> (i as u32)) & 1u32 == 1u32
}

/// Facts about the eighteen low bits of a word.
proof fn lemma_eighteen_bits(a: u32, i: u32, k: u32)
    by (bit_vector)
    ensures
        k < 18 ==> (((a & (1u32 << k)) != 0u32) == ((a >> k) & 1u32 == 1u32)),
        i < 18 && k < 18 ==> ((((a ^ (1u32 << k)) >> i) & 1u32 == 1u32) == ((i == k) != ((a >> i) & 1u32 == 1u32))),
        i < 18 && k < 18 ==> ((((a & !(1u32 << k)) >> i) & 1u32 == 1u32) == (i != k && ((a >> i) & 1u32 == 1u32))),
        i < 18 && k < 18 ==> ((((a | (1u32 << k)) >> i) & 1u32 == 1u32) == (i == k || ((a >> i) & 1u32 == 1u32))),
        i < 18 ==> ((((0x1FFFFu32 >> i) & 1u32) == 1u32) == (i < 17)),
        (((0u32 >> i) & 1u32) == 1u32) == false,
{
}

/// A flag for each of the 18 directions of `AxisExt`.
#[derive(Copy, Clone, Eq, PartialEq, Debug, Hash, Structural)]
pub struct AxisMaskExt(u32);

impl AxisMaskExt {
    /// The flag of each direction, by its number.
    pub closed spec fn view(&self) -> Seq<bool> {
        Seq::new(18, |i: int| bit32_of(self.0, i))
    }

    /// The mask with the given bits has flag i set where `p(i)` holds.
    proof fn lemma_flags(m: u32, p: spec_fn(int) -> bool)
        requires
            forall|i: u32| i < 18 ==> #[trigger] p(i as int) == ((m >> i) & 1u32 == 1u32),
        ensures
            (AxisMaskExt(m))@ == Seq::new(18, p),
    {
        assert forall|j: int| 0 <= j < 18 implies (AxisMaskExt(m))@[j] == p(j) by {
            let i = j as u32;
            assert(p(i as int) == ((m >> i) & 1u32 == 1u32));
        }
        assert((AxisMaskExt(m))@ =~= Seq::new(18, p));
    }

    /// No direction set.
    pub fn empty() -> (r: AxisMaskExt)
        ensures
            r@ == Seq::new(18, |i: int| false),
    {
        let ghost p = |i: int| false;
        proof {
            assert forall|i: u32| i < 18 implies #[trigger] p(i as int) == ((0u32 >> i) & 1u32 == 1u32) by {
                lemma_eighteen_bits(0, i, 0);
            }
            Self::lemma_flags(0, p);
        }
        AxisMaskExt(0)
    }

    /// The directions numbered below 17 set: every direction but NegYPosZ.
    pub fn full() -> (r: AxisMaskExt)
        ensures
            r@ == Seq::new(18, |i: int| i < 17),
    {
        let ghost p = |i: int| i < 17;
        proof {
            assert forall|i: u32| i < 18 implies #[trigger] p(i as int) == ((0x1FFFFu32 >> i) & 1u32 == 1u32) by {
                lemma_eighteen_bits(0, i, 0);
            }
            Self::lemma_flags(0x1FFFF, p);
        }
        AxisMaskExt(0x1FFFF)
    }

    /// Clear every direction.
    pub fn clear(&mut self)
        ensures
            final(self)@ == Seq::new(18, |i: int| false),
    {
        *self = Self::empty();
    }

    /// Whether the direction is set.
    pub fn has(self, axis: AxisExt) -> (r: bool)
        ensures
            r == self@[ext_index(axis) as int],
    {
        let k = axis.as_u8() as u32;
        proof {
            lemma_eighteen_bits(self.0, k, k);
        }
        (self.0 & (1 << k)) != 0
    }

    /// Flip the direction.
    pub fn flip(&mut self, axis: AxisExt)
        ensures
            final(self)@ == old(self)@.update(ext_index(axis) as int, !old(self)@[ext_index(axis) as int]),
    {
        let k = axis.as_u8() as u32;
        let m = self.0 ^ (1 << k);
        let ghost p = |i: int| old(self)@.update(k as int, !old(self)@[k as int])[i];
        proof {
            assert forall|i: u32| i < 18 implies #[trigger] p(i as int) == ((m >> i) & 1u32 == 1u32) by {
                lemma_eighteen_bits(old(self).0, i, k);
            }
            Self::lemma_flags(m, p);
            assert(Seq::new(18, p) =~= old(self)@.update(k as int, !old(self)@[k as int]));
        }
        self.0 = m;
    }

    /// Set the direction to v.
    pub fn set(&mut self, axis: AxisExt, v: bool)
        ensures
            final(self)@ == old(self)@.update(ext_index(axis) as int, v),
    {
        if v {
            self.set_one(axis)
        } else {
            self.set_zero(axis)
        }
    }

    /// Clear the direction.
    pub fn set_zero(&mut self, axis: AxisExt)
        ensures
            final(self)@ == old(self)@.update(ext_index(axis) as int, false),
    {
        let k = axis.as_u8() as u32;
        let m = self.0 & !(1 << k);
        let ghost p = |i: int| old(self)@.update(k as int, false)[i];
        proof {
            assert forall|i: u32| i < 18 implies #[trigger] p(i as int) == ((m >> i) & 1u32 == 1u32) by {
                lemma_eighteen_bits(old(self).0, i, k);
            }
            Self::lemma_flags(m, p);
            assert(Seq::new(18, p) =~= old(self)@.update(k as int, false));
        }
        self.0 = m;
    }

    /// Set the direction.
    pub fn set_one(&mut self, axis: AxisExt)
        ensures
            final(self)@ == old(self)@.update(ext_index(axis) as int, true),
    {
        let k = axis.as_u8() as u32;
        let m = self.0 | (1 << k);
        let ghost p = |i: int| old(self)@.update(k as int, true)[i];
        proof {
            assert forall|i: u32| i < 18 implies #[trigger] p(i as int) == ((m >> i) & 1u32 == 1u32) by {
                lemma_eighteen_bits(old(self).0, i, k);
            }
            Self::lemma_flags(m, p);
            assert(Seq::new(18, p) =~= old(self)@.update(k as int, true));
        }
        self.0 = m;
    }

    /// The mask of one named direction, or the message of `AxisExt::try_from` for a name that
    /// names none.
    pub fn from_name(name: &str) -> (r: Result<AxisMaskExt, String>)
        ensures
            r is Ok <==> ext_from_text(name@) is Some,
            r is Ok ==> r->Ok_0@ == Seq::new(18, |i: int| false).update(
                ext_index(ext_from_text(name@).unwrap()) as int,
                true,
            ),
            r is Err ==> r->Err_0@ == "Cannot convert axis string '"@ + name@ + "' to AxisExt."@,
    {
        let mut mask = AxisMaskExt::empty();
        match AxisExt::try_from(name) {
            Ok(axis) => {
                mask.set(axis, true);
                Ok(mask)
            },
            Err(e) => Err(e),
        }
    }

    /// The mask of a sequence of direction names: each named direction set. The first name that
    /// names no direction gives the message of `AxisExt::try_from` for it.
    pub fn from_names(names: &[String]) -> (r: Result<AxisMaskExt, String>)
        ensures
            r is Ok <==> (forall|j: int| 0 <= j < names@.len() ==> #[trigger] ext_from_text(names@[j]@) is Some),
            r is Ok ==> r->Ok_0@ == names_mask(names@, names@.len()),
            r is Err ==> exists|j: int| 0 <= j < names@.len() && #[trigger] ext_from_text(names@[j]@) is None
                && (forall|k: int| 0 <= k < j ==> #[trigger] ext_from_text(names@[k]@) is Some)
                && r->Err_0@ == "Cannot convert axis string '"@ + names@[j]@ + "' to AxisExt."@,
    {
        let mut mask = AxisMaskExt::empty();
        let mut i: usize = 0;
        while i < names.len()
            invariant
                i <= names@.len(),
                mask@ == names_mask(names@, i as nat),
                forall|k: int| 0 <= k < i ==> #[trigger] ext_from_text(names@[k]@) is Some,
            decreases names@.len() - i,
        {
            match AxisExt::try_from(names[i].as_str()) {
                Ok(axis) => mask.set(axis, true),
                Err(e) => {
                    assert(ext_from_text(names@[i as int]@) is None);
                    return Err(e);
                },
            }
            i = i + 1;
        }
        Ok(mask)
    }
}

/// The flags of the directions that the first n names name, all of which name one.
pub open spec fn names_mask(names: Seq<String>, n: nat) -> Seq<bool>
    decreases n,
{
    if n == 0 {
        Seq::new(18, |i: int| false)
    } else {
        names_mask(names, (n - 1) as nat).update(ext_index(ext_from_text(names[n - 1]@).unwrap()) as int, true)
    }
}

} // verus!