//! Function records and scope bookkeeping: the signatures accumulated for
//! call resolution, the bindings of the function being compiled, and the
//! indentation helper.

use vstd::prelude::*;

use crate::ty::{TypeID, TypeIDV};

verus! {

/// The two flags a function record carries; both start set.
#[derive(Copy, Clone, PartialEq, Eq, Structural, Debug)]
pub struct FnFlags {
    pub safe: bool,
    pub public: bool,
}

impl FnFlags {
    /// Both flags set, the state of a freshly parsed function.
    pub fn full() -> (r: Self)
        ensures
            r.safe && r.public,
    {
        FnFlags { safe: true, public: true }
    }
}

/// The mathematical value of a binding.
#[verifier::ext_equal]
pub struct LetV {
    pub name: Seq<char>,
    pub mutable: bool,
    pub ty: TypeIDV,
}

/// One binding: a parameter or local of the function being compiled.
/// `mutable` starts false and is promoted the first time a step operator
/// touches the binding.
pub struct Let {
    pub name: Vec<char>,
    pub mutable: bool,
    pub ty: TypeID,
}

impl View for Let {
    type V = LetV;

    open spec fn view(&self) -> LetV {
        LetV { name: self.name@, mutable: self.mutable, ty: self.ty@ }
    }
}

impl Clone for Let {
    fn clone(&self) -> (r: Self)
        ensures
            r@ == self@,
    {
        let r = Let { name: self.name.clone(), mutable: self.mutable, ty: self.ty.clone() };
        assert(r@.name =~= self@.name);
        r
    }
}

/// The mathematical value of a function record.
#[verifier::ext_equal]
pub struct FunctionV {
    pub name: Seq<char>,
    pub ret: TypeIDV,
    pub args: int,
    pub lets: Seq<LetV>,
    pub attrs: Seq<Seq<char>>,
    pub flags: FnFlags,
}

/// One function record: its name, return type, how many of its bindings
/// are parameters (they form the prefix of `lets`), its attribute tokens,
/// and its flags.
pub struct Function {
    pub name: Vec<char>,
    pub ret: TypeID,
    pub args: usize,
    pub lets: Vec<Let>,
    pub attrs: Vec<Vec<char>>,
    pub flags: FnFlags,
}

/// The binding table as a sequence of binding values.
pub open spec fn lets_view(lets: Seq<Let>) -> Seq<LetV> {
    lets.map(|i: int, l: Let| l@)
}

/// The attribute list as a sequence of token texts.
pub open spec fn attrs_view(attrs: Seq<Vec<char>>) -> Seq<Seq<char>> {
    attrs.map(|i: int, a: Vec<char>| a@)
}

impl View for Function {
    type V = FunctionV;

    open spec fn view(&self) -> FunctionV {
        FunctionV {
            name: self.name@,
            ret: self.ret@,
            args: self.args as int,
            lets: lets_view(self.lets@),
            attrs: attrs_view(self.attrs@),
            flags: self.flags,
        }
    }
}

/// The function table as a sequence of record values.
pub open spec fn fns_view(fns: Seq<Function>) -> Seq<FunctionV> {
    fns.map(|i: int, f: Function| f@)
}

/// The index of the first binding with the given name, if any.
pub open spec fn let_find(lets: Seq<LetV>, name: Seq<char>) -> Option<int>
    decreases lets.len(),
{
    if lets.len() == 0 {
        None
    } else if lets[0].name == name {
        Some(0)
    } else {
        match let_find(lets.drop_first(), name) {
            Some(i) => Some(i + 1),
            None => None,
        }
    }
}

/// A found binding index lies within the table.
pub proof fn lemma_let_find_bounds(lets: Seq<LetV>, name: Seq<char>)
    ensures
        let_find(lets, name) is Some ==> 0 <= let_find(lets, name).unwrap() < lets.len(),
    decreases lets.len(),
{
    if lets.len() > 0 && lets[0].name != name {
        lemma_let_find_bounds(lets.drop_first(), name);
    }
}

/// Whether an attribute list holds a given token.
pub open spec fn has_attr(attrs: Seq<Seq<char>>, token: Seq<char>) -> bool {
    exists|i: int| 0 <= i < attrs.len() && attrs[i] == token
}

impl Function {
    /// Records a function; it stays for call resolution, and until the
    /// next record arrives it is the active one.
    pub fn add(fns: &mut Vec<Function>, f: Function)
        ensures
            fns_view(final(fns)@) =~= fns_view(old(fns)@).push(f@),
    {
        let ghost fv = f@;
        fns.push(f);
        assert(fns_view(fns@) =~= fns_view(old(fns)@).push(fv));
    }

    /// The active function: the one whose body is being compiled.
    pub fn get(fns: &Vec<Function>) -> (r: &Function)
        requires
            fns@.len() > 0,
        ensures
            r@ == fns_view(fns@).last(),
    {
        let r = &fns[fns.len() - 1];
        assert(r@ == fns_view(fns@)[fns@.len() - 1]);
        r
    }

    /// The type of the binding with the given name, if the function has
    /// one; the first binding wins.
    pub fn type_of_let(&self, name: &Vec<char>) -> (r: Option<TypeID>)
        ensures
            match r {
                Some(t) => {
                    &&& let_find(self@.lets, name@) is Some
                    &&& t@ == self@.lets[let_find(self@.lets, name@).unwrap()].ty
                },
                None => let_find(self@.lets, name@) is None,
            },
    {
        let ghost lv = self@.lets;
        let mut i: usize = 0;
        assert(lv.skip(0) =~= lv);
        while i < self.lets.len()
            invariant
                lv == self@.lets,
                lv.len() == self.lets@.len(),
                0 <= i <= self.lets@.len(),
                let_find(lv, name@) == match let_find(lv.skip(i as int), name@) {
                    Some(k) => Some(k + i as int),
                    None => None::<int>,
                },
            decreases self.lets@.len() - i,
        {
            proof {
                assert(lv.skip(i as int)[0] == lv[i as int]);
                assert(lv.skip(i as int).drop_first() =~= lv.skip(i as int + 1));
            }
            if crate::text::chars_eq(&self.lets[i].name, name) {
                assert(let_find(lv.skip(i as int), name@) == Some(0int));
                return Some(self.lets[i].ty.clone());
            }
            i = i + 1;
        }
        proof {
            assert(lv.skip(i as int) =~= Seq::<LetV>::empty());
        }
        None
    }

    /// Whether the function carries the explicit safety marker, so that a
    /// dereference inside it is wrapped in an unsafe block instead of
    /// demoting the whole function.
    pub fn should_be_safe(&self) -> (r: bool)
        ensures
            r == has_attr(self@.attrs, seq!['%', 'S']),
    {
        let ghost av = self@.attrs;
        let mut i: usize = 0;
        while i < self.attrs.len()
            invariant
                av == self@.attrs,
                av.len() == self.attrs@.len(),
                0 <= i <= self.attrs@.len(),
                forall|j: int| 0 <= j < i ==> av[j] != seq!['%', 'S'],
            decreases self.attrs@.len() - i,
        {
            let a = &self.attrs[i];
            if a.len() == 2 {
                if a[0] == '%' && a[1] == 'S' {
                    assert(av[i as int] =~= seq!['%', 'S']);
                    return true;
                }
            }
            proof {
                if av[i as int] == seq!['%', 'S'] {
                    assert(self.attrs@[i as int]@ =~= seq!['%', 'S']);
                    assert(false);
                }
            }
            i = i + 1;
        }
        false
    }

    /// This function's signature in the shape external entry points use,
    /// for the shared call-resolution namespace: callable under its own
    /// name, parameters first among the bindings.
    pub fn as_builtin(&self) -> (r: BuiltinFunction)
        requires
            self@.args <= self@.lets.len(),
        ensures
            r.name@.len() == 0,
            r.real_name@ == self@.name,
            r.args@.len() == self@.args,
            forall|i: int| 0 <= i < r.args@.len() ==> (#[trigger] r.args@[i])@ == self@.lets[i].ty,
            r.ret@ == self@.ret,
    {
        let mut args: Vec<TypeID> = Vec::new();
        let mut i: usize = 0;
        while i < self.args
            invariant
                self@.args <= self@.lets.len(),
                self.args <= self.lets@.len(),
                0 <= i <= self.args,
                args@.len() == i,
                forall|j: int| 0 <= j < i ==> (#[trigger] args@[j])@ == self@.lets[j].ty,
            decreases self.args - i,
        {
            proof {
                assert(self@.lets[i as int] == self.lets@[i as int]@);
            }
            args.push(self.lets[i].ty.clone());
            i = i + 1;
        }
        BuiltinFunction { name: Vec::new(), real_name: self.name.clone(), args, ret: self.ret.clone() }
    }

    /// Promotes the named binding of the active function to mutable, if it
    /// has one; the first step operator applied to a binding lands here.
    pub fn check_and_make_mutable_on_require(fns: &mut Vec<Function>, name: &Vec<char>)
        requires
            old(fns)@.len() > 0,
        ensures
            final(fns)@.len() == old(fns)@.len(),
            fns_view(final(fns)@).take(old(fns)@.len() - 1) =~= fns_view(old(fns)@).take(
                old(fns)@.len() - 1,
            ),
            ({
                let f0 = fns_view(old(fns)@).last();
                let f1 = fns_view(final(fns)@).last();
                match let_find(f0.lets, name@) {
                    Some(k) => f1 =~~= FunctionV {
                        lets: f0.lets.update(
                            k,
                            LetV {
                                name: f0.lets[k].name,
                                mutable: true,
                                ty: f0.lets[k].ty,
                            },
                        ),
                        ..f0
                    },
                    None => f1 =~~= f0,
                }
            }),
    {
        let fi = fns.len() - 1;
        let ghost f0 = fns_view(fns@).last();
        let ghost lv = f0.lets;
        let mut i: usize = 0;
        assert(lv.skip(0) =~= lv);
        let n = fns[fi].lets.len();
        while i < n
            invariant
                fns@.len() == old(fns)@.len(),
                fi == fns@.len() - 1,
                fns@ == old(fns)@,
                f0 == fns_view(fns@).last(),
                lv == f0.lets,
                n == fns@[fi as int].lets@.len(),
                lv.len() == n,
                0 <= i <= n,
                let_find(lv, name@) == match let_find(lv.skip(i as int), name@) {
                    Some(k) => Some(k + i as int),
                    None => None::<int>,
                },
            decreases n - i,
        {
            proof {
                assert(lv.skip(i as int)[0] == lv[i as int]);
                assert(lv.skip(i as int).drop_first() =~= lv.skip(i as int + 1));
                assert(fns@[fi as int]@ == f0);
            }
            if crate::text::chars_eq(&fns[fi].lets[i].name, name) {
                assert(let_find(lv.skip(i as int), name@) == Some(0int));
                let mut l = fns[fi].lets[i].clone();
                l.mutable = true;
                fns[fi].lets.set(i, l);
                proof {
                    let k = i as int;
                    assert(fns_view(fns@).take(old(fns)@.len() - 1) =~= fns_view(
                        old(fns)@,
                    ).take(old(fns)@.len() - 1));
                    assert(fns_view(fns@).last().lets =~~= f0.lets.update(
                        k,
                        LetV { name: f0.lets[k].name, mutable: true, ty: f0.lets[k].ty },
                    ));
                    assert(fns_view(fns@).last() =~~= FunctionV {
                        lets: f0.lets.update(
                            k,
                            LetV { name: f0.lets[k].name, mutable: true, ty: f0.lets[k].ty },
                        ),
                        ..f0
                    });
                }
                return ;
            }
            i = i + 1;
        }
        proof {
            assert(lv.skip(i as int) =~= Seq::<LetV>::empty());
            assert(fns_view(fns@).take(old(fns)@.len() - 1) =~= fns_view(old(fns)@).take(
                old(fns)@.len() - 1,
            ));
            assert(fns_view(fns@).last() =~~= f0);
        }
    }
}

/// One callable external entry point of the runtime support library,
/// merged into the same call-resolution namespace as user functions.
pub struct BuiltinFunction {
    pub name: Vec<char>,
    pub real_name: Vec<char>,
    pub args: Vec<TypeID>,
    pub ret: TypeID,
}

impl BuiltinFunction {
    /// Registers the builtin entry points; the table currently starts
    /// empty.
    pub fn add_all(fns: &mut Vec<BuiltinFunction>)
        ensures
            final(fns)@ == old(fns)@,
    {
    }

    /// Registers one entry point: callable under `name`, emitted as the
    /// runtime library's path to `symbol`.
    pub fn add(fns: &mut Vec<BuiltinFunction>, name: &str, symbol: &str, args: Vec<TypeID>, ret: TypeID)
        ensures
            final(fns)@.len() == old(fns)@.len() + 1,
            final(fns)@[old(fns)@.len() as int].name@ == name@,
            final(fns)@[old(fns)@.len() as int].real_name@ == "::qas::builtin::"@ + symbol@,
            final(fns)@[old(fns)@.len() as int].args@ == args@,
            final(fns)@[old(fns)@.len() as int].ret@ == ret@,
            forall|i: int| 0 <= i < old(fns)@.len() ==> final(fns)@[i] == old(fns)@[i],
    {
        let mut path: Vec<char> = Vec::new();
        crate::text::push_str_chars(&mut path, "::qas::builtin::");
        crate::text::push_str_chars(&mut path, symbol);
        let entry = BuiltinFunction {
            name: crate::text::str_to_chars(name),
            real_name: path,
            args,
            ret,
        };
        fns.push(entry);
    }
}

/// The number of spec tab characters.
pub open spec fn spec_tabs(n: nat) -> Seq<char>
    decreases n,
{
    if n == 0 {
        Seq::empty()
    } else {
        spec_tabs((n - 1) as nat) + seq!['\t']
    }
}

/// Indentation helper: depth follows how many functions are open.
pub struct Tab;

impl Tab {
    /// The current indentation depth.
    pub fn tabs_num(fns: &Vec<Function>) -> (r: usize)
        ensures
            r == fns@.len(),
    {
        fns.len()
    }

    /// The current indentation, one tab per depth level.
    pub fn tabs(fns: &Vec<Function>) -> (r: Vec<char>)
        ensures
            r@ == spec_tabs(fns@.len()),
    {
        let n = Tab::tabs_num(fns);
        let mut out: Vec<char> = Vec::new();
        let mut i: usize = 0;
        while i < n
            invariant
                0 <= i <= n,
                out@ =~= spec_tabs(i as nat),
            decreases n - i,
        {
            out.push('\t');
            i = i + 1;
        }
        out
    }

    /// A newline followed by the current indentation.
    pub fn tabs_nl(fns: &Vec<Function>) -> (r: Vec<char>)
        ensures
            r@ == seq!['\n'] + spec_tabs(fns@.len()),
    {
        let mut out: Vec<char> = Vec::new();
        out.push('\n');
        let mut tabs = Tab::tabs(fns);
        out.append(&mut tabs);
        assert(out@ =~= seq!['\n'] + spec_tabs(fns@.len()));
        out
    }
}

} // verus!
