//! The builtin types, the dominance order that models C's usual arithmetic
//! conversions, and the conversion engine that re-types emitted text.

use vstd::prelude::*;

use crate::err::CError;
use crate::text::{
    deparentify, is_alnum, is_digit, push_all, spec_deparentify, spec_is_alnum, spec_is_digit,
};
use crate::ty::{reg_view, spec_real, tid_eq, tid_live, FullType, FullTypeV, TypeID, TypeIDV};

verus! {

/// The builtin C-like types, in registry order. The `Count` entry is the
/// sentinel index just past the registry; operators whose operands share
/// one not-yet-determined type use it as a placeholder.
#[derive(Copy, Clone, PartialEq, Eq, Structural, Debug)]
pub enum BuiltinType {
    Void,
    Bool,
    SignedChar,
    UnsignedChar,
    SignedShort,
    UnsignedShort,
    SignedInt,
    UnsignedInt,
    SignedLong,
    UnsignedLong,
    Float,
    Double,
    Count,
}

/// Which side of a mixed-type operation wins: `A` when the left type
/// dominates, `B` when the right one does, `Similar` when they are equal.
#[derive(Copy, Clone, PartialEq, Eq, Structural, Debug)]
pub enum Dominant {
    Similar,
    A,
    B,
}

/// Registry index of each builtin type.
pub open spec fn bt_index(t: BuiltinType) -> int {
    match t {
        BuiltinType::Void => 0,
        BuiltinType::Bool => 1,
        BuiltinType::SignedChar => 2,
        BuiltinType::UnsignedChar => 3,
        BuiltinType::SignedShort => 4,
        BuiltinType::UnsignedShort => 5,
        BuiltinType::SignedInt => 6,
        BuiltinType::UnsignedInt => 7,
        BuiltinType::SignedLong => 8,
        BuiltinType::UnsignedLong => 9,
        BuiltinType::Float => 10,
        BuiltinType::Double => 11,
        BuiltinType::Count => 12,
    }
}

/// The emitted spelling of each builtin registry entry.
pub open spec fn builtin_real(i: int) -> Seq<char> {
    if i == 0 {
        seq!['(', ')']
    } else if i == 1 {
        seq!['b', 'o', 'o', 'l']
    } else if i == 2 {
        seq!['i', '8']
    } else if i == 3 {
        seq!['u', '8']
    } else if i == 4 {
        seq!['i', '1', '6']
    } else if i == 5 {
        seq!['u', '1', '6']
    } else if i == 6 {
        seq!['i', '3', '2']
    } else if i == 7 {
        seq!['u', '3', '2']
    } else if i == 8 {
        seq!['i', '6', '4']
    } else if i == 9 {
        seq!['u', '6', '4']
    } else if i == 10 {
        seq!['f', '3', '2']
    } else {
        seq!['f', '6', '4']
    }
}

/// The size in bytes of each builtin registry entry.
pub open spec fn builtin_size(i: int) -> nat {
    if i == 0 {
        0
    } else if i == 1 || i == 2 || i == 3 {
        1
    } else if i == 4 || i == 5 {
        2
    } else if i == 6 || i == 7 || i == 10 {
        4
    } else {
        8
    }
}

/// The registry as it stands once the builtin entries are registered.
pub open spec fn builtin_registry() -> Seq<FullTypeV> {
    Seq::new(12, |i: int| FullTypeV { raw: Seq::empty(), real_name: builtin_real(i), size: builtin_size(i) })
}

/// A builtin identity: a live registry index, or any pointer.
pub open spec fn spec_is_builtin(t: TypeIDV) -> bool {
    t.idx < 12 || t.ptr.len() > 0
}

/// A floating-point base.
pub open spec fn spec_is_floating(t: TypeIDV) -> bool {
    t.idx == 10 || t.idx == 11
}

/// A signed integer base.
pub open spec fn spec_is_signed(t: TypeIDV) -> bool {
    t.idx == 2 || t.idx == 4 || t.idx == 6 || t.idx == 8
}

/// An unsigned integer base.
pub open spec fn spec_is_unsigned(t: TypeIDV) -> bool {
    t.idx == 3 || t.idx == 5 || t.idx == 7 || t.idx == 9
}

/// Any integer base.
pub open spec fn spec_is_integer(t: TypeIDV) -> bool {
    spec_is_signed(t) || spec_is_unsigned(t)
}

/// At least one pointer level.
pub open spec fn spec_is_pointer(t: TypeIDV) -> bool {
    t.ptr.len() > 0
}

/// Integer, floating, or pointer.
pub open spec fn spec_is_arithmetic(t: TypeIDV) -> bool {
    spec_is_integer(t) || spec_is_floating(t) || spec_is_pointer(t)
}

/// The dominance order: the strictly larger type wins; on a size tie a
/// floating type beats a non-floating one; when both sides float alike, a
/// signed base beats an unsigned one; otherwise the right side wins.
pub open spec fn spec_dominant(types: Seq<FullTypeV>, a: TypeIDV, b: TypeIDV) -> Dominant {
    if tid_eq(a, b) {
        Dominant::Similar
    } else {
        let sa = types[a.idx].size;
        let sb = types[b.idx].size;
        if sa > sb {
            Dominant::A
        } else if sb > sa {
            Dominant::B
        } else if spec_is_floating(a) && !spec_is_floating(b) {
            Dominant::A
        } else if spec_is_floating(b) && !spec_is_floating(a) {
            Dominant::B
        } else if spec_is_signed(a) && !spec_is_signed(b) {
            Dominant::A
        } else {
            Dominant::B
        }
    }
}

/// The platform-width unsigned integer identity that pointer-integer
/// reinterpretation routes through.
pub open spec fn ulong_id() -> TypeIDV {
    TypeIDV { idx: 9, ptr: Seq::empty(), mutable: false }
}

/// The first position of a character, if it occurs.
pub open spec fn find_char(s: Seq<char>, c: char) -> Option<int>
    decreases s.len(),
{
    if s.len() == 0 {
        None
    } else if s[0] == c {
        Some(0)
    } else {
        match find_char(s.drop_first(), c) {
            Some(i) => Some(i + 1),
            None => None,
        }
    }
}

/// Whether any character would break precedence if the text stood bare
/// inside a cast.
pub open spec fn any_non_alnum(s: Seq<char>) -> bool {
    exists|i: int| 0 <= i < s.len() && !spec_is_alnum(#[trigger] s[i])
}

/// The cast expression `(data as real_name-spelling-of-b)`, with the source
/// text parenthesised first when it holds a non-alphanumeric character.
pub open spec fn cast_text(types: Seq<FullTypeV>, b: TypeIDV, data: Seq<char>) -> Seq<char> {
    let inner = if any_non_alnum(data) {
        seq!['('] + data + seq![')']
    } else {
        data
    };
    seq!['('] + inner + seq![' ', 'a', 's', ' '] + spec_real(types, b) + seq![')']
}

/// Conversion of a bare numeric literal between builtin types: textual,
/// inserting or stripping a decimal point instead of casting.
pub open spec fn literal_text(b: TypeIDV, data: Seq<char>) -> Seq<char> {
    match find_char(data, '.') {
        Some(dot) => if spec_is_floating(b) {
            data
        } else {
            data.take(dot)
        },
        None => if spec_is_floating(b) {
            data + seq!['.']
        } else {
            data
        },
    }
}

/// What `convert` returns: the emitted text for `data` re-typed from `a`
/// to `b`, or the failure that stops translation.
pub open spec fn spec_convert(
    types: Seq<FullTypeV>,
    a: TypeIDV,
    b: TypeIDV,
    data: Seq<char>,
) -> Result<Seq<char>, CError>
    decreases (if tid_eq(b, ulong_id()) { 0int } else { 1int }),
{
    if tid_eq(a, b) {
        Ok(data)
    } else if a.idx == 12 || b.idx == 12 {
        Ok(data)
    } else if data.len() > 0 && data[0] == '"' && b.ptr.len() == 0 {
        Err(CError::StringToNonPtr)
    } else {
        let data1 = if data.len() > 0 && data[0] == '"' {
            data + seq!['.', 'a', 's', '_', 'p', 't', 'r', '(', ')']
        } else {
            data
        };
        let route = (a.ptr.len() > 0 && b.ptr.len() == 0 && !spec_is_integer(b)) || (a.ptr.len()
            == 0 && b.ptr.len() > 0 && !spec_is_integer(a));
        if route {
            match spec_convert(types, a, ulong_id(), data1) {
                Ok(d) => spec_convert_base(types, ulong_id(), b, spec_deparentify(d)),
                Err(e) => Err(e),
            }
        } else {
            spec_convert_base(types, a, b, data1)
        }
    }
}

/// The tail of the conversion: unit-type checks, then the builtin cast or
/// literal rewrite.
pub open spec fn spec_convert_base(
    types: Seq<FullTypeV>,
    a: TypeIDV,
    b: TypeIDV,
    data: Seq<char>,
) -> Result<Seq<char>, CError> {
    let a_void = a.ptr.len() == 0 && a.idx == 0;
    let b_void = b.ptr.len() == 0 && b.idx == 0;
    if a_void && !b_void {
        Err(CError::VoidToNonVoid)
    } else if !a_void && b_void {
        Err(CError::NonVoidToVoid)
    } else if spec_is_builtin(a) && spec_is_builtin(b) {
        if data.len() > 0 && spec_is_digit(data[0]) && spec_is_arithmetic(b) {
            Ok(literal_text(b, data))
        } else {
            Ok(cast_text(types, b, data))
        }
    } else {
        Err(CError::NotConvertible)
    }
}

/// Dominance is consistent: for two distinct builtin base types, one side
/// dominates and swapping the sides swaps the verdict. The one pair this
/// does not hold of is the boolean type against the unsigned character
/// type, which agree in size, floatness and signedness; the requirement
/// leaves exactly that pair out.
pub proof fn lemma_dominant_consistent(types: Seq<FullTypeV>, a: TypeIDV, b: TypeIDV)
    requires
        types == builtin_registry(),
        a.ptr.len() == 0,
        b.ptr.len() == 0,
        0 <= a.idx < 12,
        0 <= b.idx < 12,
        a.idx != b.idx,
        !(a.idx == 1 && b.idx == 3),
        !(a.idx == 3 && b.idx == 1),
    ensures
        (spec_dominant(types, a, b) == Dominant::A) <==> (spec_dominant(types, b, a)
            == Dominant::B),
        spec_dominant(types, a, b) == Dominant::A || spec_dominant(types, a, b) == Dominant::B,
{
    assert(types[a.idx].size == builtin_size(a.idx));
    assert(types[b.idx].size == builtin_size(b.idx));
}

/// Converting a type to itself is a no-op: the text comes back unchanged,
/// whatever it holds.
pub proof fn lemma_convert_identity(types: Seq<FullTypeV>, t: TypeIDV, s: Seq<char>)
    ensures
        spec_convert(types, t, t, s) == Ok::<Seq<char>, CError>(s),
{
    assert(tid_eq(t, t));
}

/// A bare numeric literal with no decimal point, converted to a floating
/// type, gains a trailing point; one with a point, converted to a
/// non-floating type, is truncated at its first point.
pub proof fn lemma_literal_conversion(types: Seq<FullTypeV>, a: TypeIDV, b: TypeIDV, s: Seq<char>)
    requires
        a.ptr.len() == 0,
        b.ptr.len() == 0,
        spec_is_arithmetic(a),
        spec_is_arithmetic(b),
        a.idx != b.idx,
        s.len() > 0,
        spec_is_digit(s[0]),
    ensures
        spec_is_floating(b) && find_char(s, '.') is None ==> spec_convert(types, a, b, s)
            == Ok::<Seq<char>, CError>(s + seq!['.']),
        !spec_is_floating(b) && find_char(s, '.') is Some ==> spec_convert(types, a, b, s)
            == Ok::<Seq<char>, CError>(s.take(find_char(s, '.').unwrap())),
{
    assert(!tid_eq(a, b));
    assert(s[0] != '"');
}

impl BuiltinType {
    /// Registers the builtin entries, in registry order; this order is an
    /// identity and never changes.
    pub fn add_all(types: &mut Vec<FullType>)
        ensures
            reg_view(final(types)@) =~= reg_view(old(types)@) + builtin_registry(),
    {
        FullType::add_builtin(types, "()", 0);
        FullType::add_builtin(types, "bool", 1);
        FullType::add_builtin(types, "i8", 1);
        FullType::add_builtin(types, "u8", 1);
        FullType::add_builtin(types, "i16", 2);
        FullType::add_builtin(types, "u16", 2);
        FullType::add_builtin(types, "i32", 4);
        FullType::add_builtin(types, "u32", 4);
        FullType::add_builtin(types, "i64", 8);
        FullType::add_builtin(types, "u64", 8);
        FullType::add_builtin(types, "f32", 4);
        FullType::add_builtin(types, "f64", 8);
        proof {
            reveal_strlit("()");
            reveal_strlit("bool");
            reveal_strlit("i8");
            reveal_strlit("u8");
            reveal_strlit("i16");
            reveal_strlit("u16");
            reveal_strlit("i32");
            reveal_strlit("u32");
            reveal_strlit("i64");
            reveal_strlit("u64");
            reveal_strlit("f32");
            reveal_strlit("f64");
            assert(reg_view(types@) =~~= reg_view(old(types)@) + builtin_registry());
        }
    }

    /// The identity of this builtin type: its registry index, no pointer
    /// levels, immutable.
    pub fn as_id(&self) -> (r: TypeID)
        ensures
            r@.idx == bt_index(*self),
            r@.ptr == Seq::<bool>::empty(),
            r@.mutable == false,
    {
        let idx: usize = match self {
            BuiltinType::Void => 0,
            BuiltinType::Bool => 1,
            BuiltinType::SignedChar => 2,
            BuiltinType::UnsignedChar => 3,
            BuiltinType::SignedShort => 4,
            BuiltinType::UnsignedShort => 5,
            BuiltinType::SignedInt => 6,
            BuiltinType::UnsignedInt => 7,
            BuiltinType::SignedLong => 8,
            BuiltinType::UnsignedLong => 9,
            BuiltinType::Float => 10,
            BuiltinType::Double => 11,
            BuiltinType::Count => 12,
        };
        TypeID::from(idx, false)
    }

    /// Whether the identity names a builtin entry or any pointer.
    pub fn is_builtin(ty: &TypeID) -> (r: bool)
        ensures
            r == spec_is_builtin(ty@),
    {
        ty.idx < 12 || !crate::bits::bits_is_empty(&ty.ptr)
    }

    /// Whether the base is a floating-point type.
    pub fn is_floating_point(ty: &TypeID) -> (r: bool)
        ensures
            r == spec_is_floating(ty@),
    {
        ty.idx == 10 || ty.idx == 11
    }

    /// Whether the base is a signed integer type.
    pub fn is_signed(ty: &TypeID) -> (r: bool)
        ensures
            r == spec_is_signed(ty@),
    {
        ty.idx == 2 || ty.idx == 4 || ty.idx == 6 || ty.idx == 8
    }

    /// Whether the base is an unsigned integer type.
    pub fn is_unsigned(ty: &TypeID) -> (r: bool)
        ensures
            r == spec_is_unsigned(ty@),
    {
        ty.idx == 3 || ty.idx == 5 || ty.idx == 7 || ty.idx == 9
    }

    /// Whether the base is an integer type.
    pub fn is_integer(ty: &TypeID) -> (r: bool)
        ensures
            r == spec_is_integer(ty@),
    {
        Self::is_signed(ty) || Self::is_unsigned(ty)
    }

    /// Whether the identity has a pointer level.
    pub fn is_pointer(ty: &TypeID) -> (r: bool)
        ensures
            r == spec_is_pointer(ty@),
    {
        !crate::bits::bits_is_empty(&ty.ptr)
    }

    /// Whether the identity is integer, floating, or pointer.
    pub fn is_arithmetic(ty: &TypeID) -> (r: bool)
        ensures
            r == spec_is_arithmetic(ty@),
    {
        Self::is_integer(ty) || Self::is_floating_point(ty) || Self::is_pointer(ty)
    }

    /// Which of two identities dominates under the usual-arithmetic-
    /// conversion order.
    pub fn dominant(types: &Vec<FullType>, a: &TypeID, b: &TypeID) -> (r: Dominant)
        requires
            tid_live(a@, reg_view(types@)),
            tid_live(b@, reg_view(types@)),
        ensures
            r == spec_dominant(reg_view(types@), a@, b@),
    {
        if a == b {
            Dominant::Similar
        } else {
            let size_a = FullType::size(types, a);
            let size_b = FullType::size(types, b);
            if size_a > size_b {
                Dominant::A
            } else if size_b > size_a {
                Dominant::B
            } else if Self::is_floating_point(a) && !Self::is_floating_point(b) {
                Dominant::A
            } else if Self::is_floating_point(b) && !Self::is_floating_point(a) {
                Dominant::B
            } else if Self::is_signed(a) && !Self::is_signed(b) {
                Dominant::A
            } else {
                Dominant::B
            }
        }
    }

    /// The platform-width unsigned integer type of the emitted target.
    pub fn usized() -> (r: Self)
        ensures
            r == BuiltinType::UnsignedLong,
    {
        Self::UnsignedLong
    }

    /// Re-types `data` from `a` to `b`, returning the emitted text, as
    /// `spec_convert` states case by case.
    pub fn convert(types: &Vec<FullType>, a: &TypeID, b: &TypeID, data: &Vec<char>) -> (r: Result<
        Vec<char>,
        CError,
    >)
        requires
            reg_view(types@).len() == 12,
            0 <= a@.idx <= 12,
            0 <= b@.idx <= 12,
        ensures
            spec_convert(reg_view(types@), a@, b@, data@) == (match r {
                Ok(v) => Ok::<Seq<char>, CError>(v@),
                Err(e) => Err::<Seq<char>, CError>(e),
            }),
        decreases (if tid_eq(b@, ulong_id()) { 0int } else { 1int }),
    {
        if a == b {
            return Ok(data.clone());
        }
        if a.idx == 12 || b.idx == 12 {
            return Ok(data.clone());
        }
        let is_string = data.len() > 0 && data[0] == '"';
        if is_string && crate::bits::bits_is_empty(&b.ptr) {
            return Err(CError::StringToNonPtr);
        }
        let mut data1 = data.clone();
        if is_string {
            data1.push('.');
            data1.push('a');
            data1.push('s');
            data1.push('_');
            data1.push('p');
            data1.push('t');
            data1.push('r');
            data1.push('(');
            data1.push(')');
            assert(data1@ =~= data@ + seq!['.', 'a', 's', '_', 'p', 't', 'r', '(', ')']);
        }
        let a_ptr = !crate::bits::bits_is_empty(&a.ptr);
        let b_ptr = !crate::bits::bits_is_empty(&b.ptr);
        let route = (a_ptr && !b_ptr && !Self::is_integer(b)) || (!a_ptr && b_ptr
            && !Self::is_integer(a));
        if route {
            let ulong = Self::UnsignedLong.as_id();
            assert(ulong@ =~= ulong_id());
            let step = Self::convert(types, a, &ulong, &data1);
            match step {
                Ok(d) => {
                    let d2 = deparentify(&d);
                    Self::convert_base(types, &ulong, b, &d2)
                },
                Err(e) => Err(e),
            }
        } else {
            Self::convert_base(types, a, b, &data1)
        }
    }

    /// The tail of the conversion: unit-type checks, then the builtin cast
    /// or literal rewrite.
    fn convert_base(types: &Vec<FullType>, a: &TypeID, b: &TypeID, data: &Vec<char>) -> (r: Result<
        Vec<char>,
        CError,
    >)
        requires
            reg_view(types@).len() == 12,
            0 <= a@.idx < 12,
            0 <= b@.idx < 12,
        ensures
            spec_convert_base(reg_view(types@), a@, b@, data@) == (match r {
                Ok(v) => Ok::<Seq<char>, CError>(v@),
                Err(e) => Err::<Seq<char>, CError>(e),
            }),
    {
        let a_void = crate::bits::bits_is_empty(&a.ptr) && a.idx == 0;
        let b_void = crate::bits::bits_is_empty(&b.ptr) && b.idx == 0;
        if a_void && !b_void {
            return Err(CError::VoidToNonVoid);
        }
        if !a_void && b_void {
            return Err(CError::NonVoidToVoid);
        }
        if Self::is_builtin(a) && Self::is_builtin(b) {
            if data.len() > 0 && is_digit(data[0]) && Self::is_arithmetic(b) {
                Ok(Self::literal_rewrite(b, data))
            } else {
                Ok(Self::cast(types, b, data))
            }
        } else {
            Err(CError::NotConvertible)
        }
    }

    /// Rewrites a bare numeric literal for the target type: a literal with
    /// no `.` converted to a floating type gains one; a literal with a `.`
    /// converted elsewhere is truncated at it.
    fn literal_rewrite(b: &TypeID, data: &Vec<char>) -> (r: Vec<char>)
        ensures
            r@ == literal_text(b@, data@),
    {
        let mut dot: Option<usize> = None;
        let mut i: usize = 0;
        assert(data@.skip(0) =~= data@);
        while i < data.len()
            invariant
                0 <= i <= data@.len(),
                match dot {
                    Some(d) => d < i && find_char(data@, '.') == Some(d as int),
                    None => find_char(data@, '.') == (match find_char(
                        data@.skip(i as int),
                        '.',
                    ) {
                        Some(k) => Some(k + i as int),
                        None => None::<int>,
                    }),
                },
            decreases data@.len() - i,
        {
            if dot.is_none() {
                proof {
                    assert(data@.skip(i as int)[0] == data@[i as int]);
                    assert(data@.skip(i as int).drop_first() =~= data@.skip(i as int + 1));
                }
                if data[i] == '.' {
                    dot = Some(i);
                    assert(find_char(data@.skip(i as int), '.') == Some(0int));
                }
            }
            i = i + 1;
        }
        proof {
            if dot is None {
                assert(data@.skip(i as int) =~= Seq::<char>::empty());
            }
        }
        let floating = BuiltinType::is_floating_point(b);
        match dot {
            Some(d) => {
                if floating {
                    data.clone()
                } else {
                    let mut out: Vec<char> = Vec::new();
                    let mut j: usize = 0;
                    while j < d
                        invariant
                            0 <= j <= d,
                            d < data@.len(),
                            out@ =~= data@.take(j as int),
                        decreases d - j,
                    {
                        out.push(data[j]);
                        j = j + 1;
                    }
                    out
                }
            },
            None => {
                if floating {
                    let mut out = data.clone();
                    out.push('.');
                    assert(out@ =~= data@ + seq!['.']);
                    out
                } else {
                    data.clone()
                }
            },
        }
    }

    /// Builds the explicit cast expression for the target type.
    fn cast(types: &Vec<FullType>, b: &TypeID, data: &Vec<char>) -> (r: Vec<char>)
        requires
            reg_view(types@).len() == 12,
            0 <= b@.idx < 12,
        ensures
            r@ == cast_text(reg_view(types@), b@, data@),
    {
        let mut needs = false;
        let mut i: usize = 0;
        while i < data.len()
            invariant
                0 <= i <= data@.len(),
                needs == exists|j: int| 0 <= j < i && !spec_is_alnum(#[trigger] data@[j]),
            decreases data@.len() - i,
        {
            if !is_alnum(data[i]) {
                needs = true;
            }
            i = i + 1;
        }
        let mut out: Vec<char> = Vec::new();
        out.push('(');
        if needs {
            out.push('(');
            push_all(&mut out, data);
            out.push(')');
        } else {
            push_all(&mut out, data);
        }
        out.push(' ');
        out.push('a');
        out.push('s');
        out.push(' ');
        let real_name = FullType::real_name(types, b);
        push_all(&mut out, &real_name);
        out.push(')');
        proof {
            assert(needs == any_non_alnum(data@));
            assert(out@ =~= cast_text(reg_view(types@), b@, data@));
        }
        out
    }
}

} // verus!
