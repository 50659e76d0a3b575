//! Type identities and the type registry: a `TypeID` names a registry
//! entry plus a stack of pointer levels, each with its own mutability bit;
//! `FullType` is one registry entry; `AliasType` is a `typedef` binding.

use vstd::prelude::*;

use crate::bits::{bits_clone, bits_eq, bits_get, bits_len, bits_new, ptr_bits};

verus! {

/// The mathematical value of a `TypeID`.
#[verifier::ext_equal]
pub struct TypeIDV {
    pub idx: int,
    pub ptr: Seq<bool>,
    pub mutable: bool,
}

/// A type identity: registry index, pointer levels (each bit is one level's
/// mutability), and the mutability of the pointed-to or base value.
pub struct TypeID {
    pub idx: usize,
    pub ptr: bit_vec::BitVec<u8>,
    pub mutable: bool,
}

impl View for TypeID {
    type V = TypeIDV;

    open spec fn view(&self) -> TypeIDV {
        TypeIDV { idx: self.idx as int, ptr: ptr_bits(self.ptr), mutable: self.mutable }
    }
}

/// Equality of type identities: the mutability of the base value does not
/// participate, only the registry index and the pointer levels do.
pub open spec fn tid_eq(a: TypeIDV, b: TypeIDV) -> bool {
    a.idx == b.idx && a.ptr == b.ptr
}

impl PartialEq for TypeID {
    fn eq(&self, other: &Self) -> (r: bool) {
        self.idx == other.idx && bits_eq(&self.ptr, &other.ptr)
    }
}

impl vstd::std_specs::cmp::PartialEqSpecImpl for TypeID {
    open spec fn obeys_eq_spec() -> bool {
        true
    }

    open spec fn eq_spec(&self, other: &TypeID) -> bool {
        tid_eq(self@, other@)
    }
}

impl Clone for TypeID {
    fn clone(&self) -> (r: Self)
        ensures
            r@ == self@,
    {
        TypeID { idx: self.idx, ptr: bits_clone(&self.ptr), mutable: self.mutable }
    }
}

impl TypeID {
    /// A type identity with no pointer levels.
    pub fn from(idx: usize, mutable: bool) -> (r: Self)
        ensures
            r@.idx == idx as int,
            r@.ptr == Seq::<bool>::empty(),
            r@.mutable == mutable,
    {
        Self { idx, ptr: bits_new(), mutable }
    }

    /// The same identity with a mutable base value.
    pub fn mutable(&self) -> (r: Self)
        ensures
            r@.idx == self@.idx,
            r@.ptr == self@.ptr,
            r@.mutable == true,
    {
        Self { idx: self.idx, ptr: bits_clone(&self.ptr), mutable: true }
    }
}

/// The mathematical value of a registry entry.
#[verifier::ext_equal]
pub struct FullTypeV {
    pub raw: Seq<char>,
    pub real_name: Seq<char>,
    pub size: nat,
}

/// One registry entry: the diagnostic (source) spelling, the emitted
/// (target) spelling, and the size in bytes.
pub struct FullType {
    pub raw: Vec<char>,
    pub real_name: Vec<char>,
    pub size: usize,
}

impl View for FullType {
    type V = FullTypeV;

    open spec fn view(&self) -> FullTypeV {
        FullTypeV { raw: self.raw@, real_name: self.real_name@, size: self.size as nat }
    }
}

/// The registry as a sequence of entry values.
pub open spec fn reg_view(types: Seq<FullType>) -> Seq<FullTypeV> {
    types.map(|i: int, t: FullType| t@)
}

/// A type identity that resolves to a live registry entry.
pub open spec fn tid_live(t: TypeIDV, types: Seq<FullTypeV>) -> bool {
    0 <= t.idx < types.len()
}

/// The emitted spelling of one pointer level.
pub open spec fn level_mark(mutable: bool) -> Seq<char> {
    if mutable {
        seq!['*', 'm', 'u', 't', ' ']
    } else {
        seq!['*', 'c', 'o', 'n', 's', 't', ' ']
    }
}

/// The emitted spelling of a stack of pointer levels, first level first.
pub open spec fn ptr_marks(ptr: Seq<bool>) -> Seq<char>
    decreases ptr.len(),
{
    if ptr.len() == 0 {
        Seq::empty()
    } else {
        level_mark(ptr[0]) + ptr_marks(ptr.drop_first())
    }
}

/// The emitted spelling of a whole type identity.
pub open spec fn spec_real(types: Seq<FullTypeV>, t: TypeIDV) -> Seq<char> {
    ptr_marks(t.ptr) + types[t.idx].real_name
}

/// The diagnostic spelling of a type identity: a `const` prefix for an
/// immutable base, then the entry's emitted name for a builtin identity or
/// its source name otherwise.
pub open spec fn spec_raw(types: Seq<FullTypeV>, t: TypeIDV) -> Seq<char> {
    (if t.mutable {
        Seq::empty()
    } else {
        seq!['c', 'o', 'n', 's', 't', ' ']
    }) + (if crate::builtin_ty::spec_is_builtin(t) {
        types[t.idx].real_name
    } else {
        types[t.idx].raw
    })
}

impl FullType {
    /// Registers one builtin entry: no source spelling, the given target
    /// spelling and size.
    pub fn add_builtin(types: &mut Vec<FullType>, ty: &str, size: usize)
        ensures
            final(types)@.len() == old(types)@.len() + 1,
            reg_view(final(types)@) =~= reg_view(old(types)@).push(
                FullTypeV { raw: Seq::empty(), real_name: ty@, size: size as nat },
            ),
    {
        let name = crate::text::str_to_chars(ty);
        types.push(FullType { raw: Vec::new(), real_name: name, size });
        assert(reg_view(types@) =~= reg_view(old(types)@).push(
            FullTypeV { raw: Seq::empty(), real_name: ty@, size: size as nat },
        ));
    }

    /// The emitted spelling of a type identity.
    pub fn real_name(types: &Vec<FullType>, ty: &TypeID) -> (r: Vec<char>)
        requires
            tid_live(ty@, reg_view(types@)),
        ensures
            r@ == spec_real(reg_view(types@), ty@),
    {
        let mut out: Vec<char> = Vec::new();
        let n = bits_len(&ty.ptr);
        let mut i: usize = 0;
        assert(ty@.ptr.skip(0) =~= ty@.ptr);
        while i < n
            invariant
                n as nat == ty@.ptr.len(),
                0 <= i <= n,
                ptr_marks(ty@.ptr) =~= out@ + ptr_marks(ty@.ptr.skip(i as int)),
            decreases n - i,
        {
            let b = match bits_get(&ty.ptr, i) {
                Some(b) => b,
                None => {
                    proof {
                        assert(false);
                    }
                    false
                },
            };
            out.push('*');
            if b {
                out.push('m');
                out.push('u');
                out.push('t');
            } else {
                out.push('c');
                out.push('o');
                out.push('n');
                out.push('s');
                out.push('t');
            }
            out.push(' ');
            proof {
                let p = ty@.ptr;
                assert(p.skip(i as int)[0] == p[i as int]);
                assert(p.skip(i as int).drop_first() =~= p.skip(i as int + 1));
                assert(ptr_marks(p.skip(i as int)) == level_mark(p[i as int]) + ptr_marks(
                    p.skip(i as int + 1),
                ));
            }
            i = i + 1;
        }
        proof {
            assert(ty@.ptr.skip(n as int) =~= Seq::<bool>::empty());
            assert(ptr_marks(ty@.ptr) =~= out@);
        }
        crate::text::push_all(&mut out, &types[ty.idx].real_name);
        out
    }

    /// The diagnostic spelling of a type identity.
    pub fn raw(types: &Vec<FullType>, ty: &TypeID) -> (r: Vec<char>)
        requires
            tid_live(ty@, reg_view(types@)),
        ensures
            r@ == spec_raw(reg_view(types@), ty@),
    {
        let mut out: Vec<char> = Vec::new();
        if !ty.mutable {
            out.push('c');
            out.push('o');
            out.push('n');
            out.push('s');
            out.push('t');
            out.push(' ');
        }
        assert(out@ =~= if ty@.mutable {
            Seq::<char>::empty()
        } else {
            seq!['c', 'o', 'n', 's', 't', ' ']
        });
        if crate::builtin_ty::BuiltinType::is_builtin(ty) {
            crate::text::push_all(&mut out, &types[ty.idx].real_name);
        } else {
            crate::text::push_all(&mut out, &types[ty.idx].raw);
        }
        out
    }

    /// The size in bytes of the entry a type identity resolves to.
    pub fn size(types: &Vec<FullType>, ty: &TypeID) -> (r: usize)
        requires
            tid_live(ty@, reg_view(types@)),
        ensures
            r as nat == reg_view(types@)[ty@.idx].size,
    {
        types[ty.idx].size
    }
}

/// The mathematical value of an alias binding.
#[verifier::ext_equal]
pub struct AliasV {
    pub name: Seq<char>,
    pub id: TypeIDV,
    pub is_in_function: bool,
}

/// A `typedef` binding: a source name for a type identity, with a flag for
/// bindings local to the function being compiled.
pub struct AliasType {
    pub name: Vec<char>,
    pub id: TypeID,
    pub is_in_function: bool,
}

impl View for AliasType {
    type V = AliasV;

    open spec fn view(&self) -> AliasV {
        AliasV { name: self.name@, id: self.id@, is_in_function: self.is_in_function }
    }
}

impl Clone for AliasType {
    fn clone(&self) -> (r: Self)
        ensures
            r@ == self@,
    {
        let r = AliasType {
            name: self.name.clone(),
            id: self.id.clone(),
            is_in_function: self.is_in_function,
        };
        assert(r@.name =~= self@.name);
        r
    }
}

/// The alias table as a sequence of binding values.
pub open spec fn aliases_view(aliases: Seq<AliasType>) -> Seq<AliasV> {
    aliases.map(|i: int, a: AliasType| a@)
}

/// The index of the first alias with the given name, if any.
pub open spec fn alias_find(aliases: Seq<AliasV>, name: Seq<char>) -> Option<int>
    decreases aliases.len(),
{
    if aliases.len() == 0 {
        None
    } else if aliases[0].name == name {
        Some(0)
    } else {
        match alias_find(aliases.drop_first(), name) {
            Some(i) => Some(i + 1),
            None => None,
        }
    }
}

/// A found alias index lies within the table.
pub proof fn lemma_alias_find_bounds(aliases: Seq<AliasV>, name: Seq<char>)
    ensures
        alias_find(aliases, name) is Some ==> 0 <= alias_find(aliases, name).unwrap()
            < aliases.len(),
    decreases aliases.len(),
{
    if aliases.len() > 0 && aliases[0].name != name {
        lemma_alias_find_bounds(aliases.drop_first(), name);
    }
}

/// The aliases that survive the end of a function body: those not local
/// to it, in order.
pub open spec fn global_aliases(aliases: Seq<AliasV>) -> Seq<AliasV>
    decreases aliases.len(),
{
    if aliases.len() == 0 {
        Seq::empty()
    } else {
        global_aliases(aliases.drop_last()) + (if aliases.last().is_in_function {
            Seq::empty()
        } else {
            seq![aliases.last()]
        })
    }
}

impl AliasType {
    /// Records a new alias; ones registered while a function is being
    /// compiled are local to it.
    pub fn add(aliases: &mut Vec<AliasType>, name: Vec<char>, id: TypeID, in_function: bool)
        ensures
            aliases_view(final(aliases)@) =~= aliases_view(old(aliases)@).push(
                AliasV { name: name@, id: id@, is_in_function: in_function },
            ),
    {
        let ghost nv = name@;
        let ghost iv = id@;
        aliases.push(AliasType { name, id, is_in_function: in_function });
        assert(aliases_view(aliases@) =~= aliases_view(old(aliases)@).push(
            AliasV { name: nv, id: iv, is_in_function: in_function },
        ));
    }

    /// Looks an alias up by name; the first registration wins.
    pub fn find(aliases: &Vec<AliasType>, name: &Vec<char>) -> (r: Option<TypeID>)
        ensures
            match r {
                Some(t) => {
                    &&& alias_find(aliases_view(aliases@), name@) is Some
                    &&& t@ == aliases_view(aliases@)[alias_find(
                        aliases_view(aliases@),
                        name@,
                    ).unwrap()].id
                },
                None => alias_find(aliases_view(aliases@), name@) is None,
            },
    {
        let ghost av = aliases_view(aliases@);
        let mut i: usize = 0;
        assert(av.skip(0) =~= av);
        while i < aliases.len()
            invariant
                av == aliases_view(aliases@),
                av.len() == aliases@.len(),
                0 <= i <= aliases@.len(),
                alias_find(av, name@) == match alias_find(av.skip(i as int), name@) {
                    Some(k) => Some(k + i as int),
                    None => None::<int>,
                },
            decreases aliases@.len() - i,
        {
            proof {
                assert(av.skip(i as int)[0] == av[i as int]);
                assert(av.skip(i as int).drop_first() =~= av.skip(i as int + 1));
            }
            if crate::text::chars_eq(&aliases[i].name, name) {
                assert(alias_find(av.skip(i as int), name@) == Some(0int));
                return Some(aliases[i].id.clone());
            }
            assert(av[i as int].name != name@);
            i = i + 1;
        }
        proof {
            assert(av.skip(i as int) =~= Seq::<AliasV>::empty());
        }
        None
    }

    /// Erases the aliases local to the function whose body just finished.
    pub fn clear(aliases: &mut Vec<AliasType>)
        ensures
            aliases_view(final(aliases)@) =~= global_aliases(aliases_view(old(aliases)@)),
    {
        let ghost av = aliases_view(aliases@);
        let mut kept: Vec<AliasType> = Vec::new();
        let mut i: usize = 0;
        while i < aliases.len()
            invariant
                av == aliases_view(aliases@),
                av.len() == aliases@.len(),
                0 <= i <= aliases@.len(),
                aliases_view(kept@) =~= global_aliases(av.take(i as int)),
            decreases aliases@.len() - i,
        {
            proof {
                assert(av.take(i as int + 1).drop_last() =~= av.take(i as int));
                assert(av.take(i as int + 1).last() == av[i as int]);
            }
            if !aliases[i].is_in_function {
                kept.push(aliases[i].clone());
                assert(aliases_view(kept@) =~= global_aliases(av.take(i as int + 1)));
            } else {
                assert(aliases_view(kept@) =~= global_aliases(av.take(i as int + 1)));
            }
            i = i + 1;
        }
        proof {
            assert(av.take(i as int) =~= av);
        }
        *aliases = kept;
    }
}

} // verus!
