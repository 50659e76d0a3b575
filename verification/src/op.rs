//! The operator table and the resolution engine: each operator carries an
//! acceptance predicate, a fallback type, and a result-type rule; binary
//! resolution converts the weaker operand to the dominant side's type and
//! joins the texts; unary resolution lowers the symbol-specific cases.

use vstd::prelude::*;

use crate::bits::{bits_clone, bits_is_empty, bits_pop, BitPtrIter};
use crate::builtin_ty::{
    spec_convert, spec_dominant, spec_is_arithmetic, spec_is_builtin, spec_is_integer,
    spec_is_unsigned, BuiltinType, Dominant,
};
use crate::err::CError;
use crate::fns::{fns_view, has_attr, let_find, FnFlags, Function, FunctionV, LetV};
use crate::text::{chars_eq, push_all, push_str_chars, str_to_chars};
use crate::ty::{reg_view, tid_eq, FullType, FullTypeV, TypeID, TypeIDV};

verus! {

/// The mathematical value of a compiler-internal expression.
#[verifier::ext_equal]
pub struct ExprV {
    pub name: Seq<char>,
    pub ty: TypeIDV,
}

/// A compiler-internal value: the emitted text so far and its type.
pub struct Expr {
    pub name: Vec<char>,
    pub ty: TypeID,
}

impl View for Expr {
    type V = ExprV;

    open spec fn view(&self) -> ExprV {
        ExprV { name: self.name@, ty: self.ty@ }
    }
}

impl Clone for Expr {
    fn clone(&self) -> (r: Self)
        ensures
            r@ == self@,
    {
        let r = Expr { name: self.name.clone(), ty: self.ty.clone() };
        assert(r@.name =~= self@.name);
        r
    }
}

/// What re-typing an expression yields: the converted text with the new
/// type, or the conversion failure.
pub open spec fn spec_expr_convert(
    types: Seq<FullTypeV>,
    e: ExprV,
    to: TypeIDV,
) -> Result<ExprV, CError> {
    match spec_convert(types, e.ty, to, e.name) {
        Ok(n) => Ok(ExprV { name: n, ty: to }),
        Err(x) => Err(x),
    }
}

impl Expr {
    /// A fresh expression.
    pub fn new(name: Vec<char>, ty: &TypeID) -> (r: Self)
        ensures
            r@.name == name@,
            r@.ty == ty@,
    {
        Self { name, ty: ty.clone() }
    }

    /// Re-types the expression, rewriting its text through the conversion
    /// engine.
    pub fn convert(&mut self, types: &Vec<FullType>, to: &TypeID) -> (r: Result<(), CError>)
        requires
            reg_view(types@).len() == 12,
            0 <= old(self)@.ty.idx <= 12,
            0 <= to@.idx <= 12,
        ensures
            match r {
                Ok(_) => spec_expr_convert(reg_view(types@), old(self)@, to@) == Ok::<
                    ExprV,
                    CError,
                >(final(self)@),
                Err(e) => {
                    &&& spec_expr_convert(reg_view(types@), old(self)@, to@) == Err::<
                        ExprV,
                        CError,
                    >(e)
                    &&& final(self)@ == old(self)@
                },
            },
    {
        match BuiltinType::convert(types, &self.ty, to, &self.name) {
            Ok(n) => {
                self.name = n;
                self.ty = to.clone();
                Ok(())
            },
            Err(e) => Err(e),
        }
    }
}

/// An operator's acceptance predicate, as a rule the resolver interprets.
#[derive(Copy, Clone, PartialEq, Eq, Structural, Debug)]
pub enum OpMatch {
    /// Integer, floating, or pointer operands.
    Arithmetic,
    /// Integer operands.
    Integer,
    /// Unsigned integer operands.
    Unsigned,
    /// Builtin operands of any kind.
    Builtin,
    /// Boolean operands only.
    Bool,
    /// Any operand.
    Any,
    /// A mutable integer; an immutable operand is a fatal error.
    MutableInteger,
    /// A pointer that may be dereferenced; rejections are fatal errors.
    Deref,
}

/// An operator's result-type rule.
#[derive(Copy, Clone, PartialEq, Eq, Structural, Debug)]
pub enum OpResult {
    /// The (coerced) left operand's type.
    Same,
    /// The boolean type, whatever the operands.
    AlwaysBool,
    /// One more pointer level, carrying the operand's base mutability.
    AddrOf,
    /// One pointer level fewer; the removed level's bit becomes the base
    /// mutability.
    DerefOne,
}

/// The boolean type identity.
pub open spec fn bool_id() -> TypeIDV {
    TypeIDV { idx: 1, ptr: Seq::empty(), mutable: false }
}

/// What an acceptance rule says of a type: whether the operand passes, or
/// the failure that stops translation.
pub open spec fn spec_accepts(m: OpMatch, t: TypeIDV) -> Result<bool, CError> {
    match m {
        OpMatch::Arithmetic => Ok(spec_is_arithmetic(t)),
        OpMatch::Integer => Ok(spec_is_integer(t)),
        OpMatch::Unsigned => Ok(spec_is_unsigned(t)),
        OpMatch::Builtin => Ok(spec_is_builtin(t)),
        OpMatch::Bool => Ok(tid_eq(t, bool_id())),
        OpMatch::Any => Ok(true),
        OpMatch::MutableInteger => if !t.mutable {
            Err(CError::ConstOperand)
        } else {
            Ok(spec_is_integer(t))
        },
        OpMatch::Deref => if t.ptr.len() == 0 {
            Err(CError::DerefNonPtr)
        } else if t.ptr.len() == 1 && t.idx == 0 {
            Err(CError::DerefVoidPtr)
        } else {
            Ok(true)
        },
    }
}

/// The type a result rule yields from the (coerced) operand type.
pub open spec fn spec_result(r: OpResult, t: TypeIDV) -> TypeIDV {
    match r {
        OpResult::Same => t,
        OpResult::AlwaysBool => bool_id(),
        OpResult::AddrOf => TypeIDV { idx: t.idx, ptr: t.ptr.push(t.mutable), mutable: true },
        OpResult::DerefOne => if t.ptr.len() == 0 {
            t
        } else {
            TypeIDV { idx: t.idx, ptr: t.ptr.drop_last(), mutable: t.ptr.last() }
        },
    }
}

/// Evaluates an acceptance rule on a type.
pub fn accepts(m: OpMatch, ty: &TypeID) -> (r: Result<bool, CError>)
    ensures
        r == spec_accepts(m, ty@),
{
    match m {
        OpMatch::Arithmetic => Ok(BuiltinType::is_arithmetic(ty)),
        OpMatch::Integer => Ok(BuiltinType::is_integer(ty)),
        OpMatch::Unsigned => Ok(BuiltinType::is_unsigned(ty)),
        OpMatch::Builtin => Ok(BuiltinType::is_builtin(ty)),
        OpMatch::Bool => {
            let b = ty.idx == 1 && bits_is_empty(&ty.ptr);
            proof {
                if b {
                    assert(ty@.ptr =~= Seq::<bool>::empty());
                }
            }
            Ok(b)
        },
        OpMatch::Any => Ok(true),
        OpMatch::MutableInteger => {
            if !ty.mutable {
                Err(CError::ConstOperand)
            } else {
                Ok(BuiltinType::is_integer(ty))
            }
        },
        OpMatch::Deref => {
            let n = crate::bits::bits_len(&ty.ptr);
            if n == 0 {
                Err(CError::DerefNonPtr)
            } else if n == 1 && ty.idx == 0 {
                Err(CError::DerefVoidPtr)
            } else {
                Ok(true)
            }
        },
    }
}

/// Applies a result rule to the (coerced) operand type.
pub fn apply_result(r: OpResult, ty: &TypeID) -> (out: TypeID)
    ensures
        out@ == spec_result(r, ty@),
{
    match r {
        OpResult::Same => ty.clone(),
        OpResult::AlwaysBool => BuiltinType::Bool.as_id(),
        OpResult::AddrOf => {
            let t = TypeID {
                idx: ty.idx,
                ptr: BitPtrIter::append(bits_clone(&ty.ptr), ty.mutable),
                mutable: true,
            };
            t
        },
        OpResult::DerefOne => {
            let (rest, last) = bits_pop(bits_clone(&ty.ptr));
            match last {
                Some(b) => TypeID { idx: ty.idx, ptr: rest, mutable: b },
                None => ty.clone(),
            }
        },
    }
}

/// The mathematical value of an operator descriptor.
#[verifier::ext_equal]
pub struct OpV {
    pub name: Seq<char>,
    pub matching: OpMatch,
    pub default: TypeIDV,
    pub result: OpResult,
    pub operands: u8,
}

/// One operator descriptor, registered per symbol and arity.
pub struct Op {
    pub name: Vec<char>,
    pub matching: OpMatch,
    pub default: TypeID,
    pub result: OpResult,
    pub operands: u8,
}

impl View for Op {
    type V = OpV;

    open spec fn view(&self) -> OpV {
        OpV {
            name: self.name@,
            matching: self.matching,
            default: self.default@,
            result: self.result,
            operands: self.operands,
        }
    }
}

/// The operator table as a sequence of descriptor values.
pub open spec fn ops_view(ops: Seq<Op>) -> Seq<OpV> {
    ops.map(|i: int, o: Op| o@)
}

/// A descriptor table the resolver can work against: every fallback type
/// indexes the registry or is the sentinel.
pub open spec fn ops_wf(ops: Seq<OpV>) -> bool {
    forall|i: int| 0 <= i < ops.len() ==> 0 <= (#[trigger] ops[i]).default.idx <= 12
}

/// The index of the first descriptor with the given symbol and arity.
pub open spec fn op_find(ops: Seq<OpV>, name: Seq<char>, operands: u8) -> Option<int>
    decreases ops.len(),
{
    if ops.len() == 0 {
        None
    } else if ops[0].name == name && ops[0].operands == operands {
        Some(0)
    } else {
        match op_find(ops.drop_first(), name, operands) {
            Some(i) => Some(i + 1),
            None => None,
        }
    }
}

/// An integer type identity used as an operator fallback.
pub open spec fn int_id() -> TypeIDV {
    TypeIDV { idx: 6, ptr: Seq::empty(), mutable: false }
}

/// The unsigned fallback identity.
pub open spec fn uint_id() -> TypeIDV {
    TypeIDV { idx: 7, ptr: Seq::empty(), mutable: false }
}

/// The placeholder identity for operators whose operands share one
/// not-yet-determined type.
pub open spec fn same_id() -> TypeIDV {
    TypeIDV { idx: 12, ptr: Seq::empty(), mutable: false }
}

/// The table `Op::add_all` registers, in order: the binary operators by
/// falling precedence, then the unary ones.
pub open spec fn standard_ops() -> Seq<OpV> {
    seq![
        OpV { name: "*"@, matching: OpMatch::Arithmetic, default: int_id(), result: OpResult::Same, operands: 2 },
        OpV { name: "/"@, matching: OpMatch::Arithmetic, default: int_id(), result: OpResult::Same, operands: 2 },
        OpV { name: "%"@, matching: OpMatch::Integer, default: int_id(), result: OpResult::Same, operands: 2 },
        OpV { name: "+"@, matching: OpMatch::Arithmetic, default: int_id(), result: OpResult::Same, operands: 2 },
        OpV { name: "-"@, matching: OpMatch::Arithmetic, default: int_id(), result: OpResult::Same, operands: 2 },
        OpV { name: "<<"@, matching: OpMatch::Unsigned, default: uint_id(), result: OpResult::Same, operands: 2 },
        OpV { name: ">>"@, matching: OpMatch::Unsigned, default: uint_id(), result: OpResult::Same, operands: 2 },
        OpV { name: ">"@, matching: OpMatch::Builtin, default: same_id(), result: OpResult::AlwaysBool, operands: 2 },
        OpV { name: "<"@, matching: OpMatch::Builtin, default: same_id(), result: OpResult::AlwaysBool, operands: 2 },
        OpV { name: ">="@, matching: OpMatch::Builtin, default: same_id(), result: OpResult::AlwaysBool, operands: 2 },
        OpV { name: "<="@, matching: OpMatch::Builtin, default: same_id(), result: OpResult::AlwaysBool, operands: 2 },
        OpV { name: "=="@, matching: OpMatch::Builtin, default: same_id(), result: OpResult::AlwaysBool, operands: 2 },
        OpV { name: "!="@, matching: OpMatch::Builtin, default: same_id(), result: OpResult::AlwaysBool, operands: 2 },
        OpV { name: "&"@, matching: OpMatch::Unsigned, default: uint_id(), result: OpResult::Same, operands: 2 },
        OpV { name: "^"@, matching: OpMatch::Unsigned, default: uint_id(), result: OpResult::Same, operands: 2 },
        OpV { name: "|"@, matching: OpMatch::Unsigned, default: uint_id(), result: OpResult::Same, operands: 2 },
        OpV { name: "&&"@, matching: OpMatch::Bool, default: bool_id(), result: OpResult::Same, operands: 2 },
        OpV { name: "||"@, matching: OpMatch::Bool, default: bool_id(), result: OpResult::Same, operands: 2 },
        OpV { name: "++a"@, matching: OpMatch::MutableInteger, default: same_id(), result: OpResult::Same, operands: 1 },
        OpV { name: "++b"@, matching: OpMatch::MutableInteger, default: same_id(), result: OpResult::Same, operands: 1 },
        OpV { name: "--a"@, matching: OpMatch::MutableInteger, default: same_id(), result: OpResult::Same, operands: 1 },
        OpV { name: "--b"@, matching: OpMatch::MutableInteger, default: same_id(), result: OpResult::Same, operands: 1 },
        OpV { name: "+"@, matching: OpMatch::Arithmetic, default: int_id(), result: OpResult::Same, operands: 1 },
        OpV { name: "-"@, matching: OpMatch::Arithmetic, default: int_id(), result: OpResult::Same, operands: 1 },
        OpV { name: "&"@, matching: OpMatch::Any, default: same_id(), result: OpResult::AddrOf, operands: 1 },
        OpV { name: "*"@, matching: OpMatch::Deref, default: same_id(), result: OpResult::DerefOne, operands: 1 },
        OpV { name: "!"@, matching: OpMatch::Bool, default: bool_id(), result: OpResult::Same, operands: 1 },
        OpV { name: "~"@, matching: OpMatch::Unsigned, default: uint_id(), result: OpResult::Same, operands: 1 },
    ]
}

impl Op {
    /// Registers one operator descriptor.
    pub fn add(
        ops: &mut Vec<Op>,
        name: &str,
        operands: u8,
        matching: OpMatch,
        default: TypeID,
        result: OpResult,
    )
        ensures
            ops_view(final(ops)@) =~= ops_view(old(ops)@).push(
                OpV { name: name@, matching, default: default@, result, operands },
            ),
    {
        let ghost dv = default@;
        let n = str_to_chars(name);
        ops.push(Op { name: n, matching, default, result, operands });
        assert(ops_view(ops@) =~= ops_view(old(ops)@).push(
            OpV { name: name@, matching, default: dv, result, operands },
        ));
    }

    /// Registers the whole operator table, in its fixed order.
    pub fn add_all(ops: &mut Vec<Op>)
        ensures
            ops_view(final(ops)@) =~~= ops_view(old(ops)@) + standard_ops(),
    {
        let int_ty = BuiltinType::SignedInt.as_id();
        let uint_ty = BuiltinType::UnsignedInt.as_id();
        let bool_ty = BuiltinType::Bool.as_id();
        let same_ty = BuiltinType::Count.as_id();

        Op::add(ops, "*", 2, OpMatch::Arithmetic, int_ty.clone(), OpResult::Same);
        Op::add(ops, "/", 2, OpMatch::Arithmetic, int_ty.clone(), OpResult::Same);
        Op::add(ops, "%", 2, OpMatch::Integer, int_ty.clone(), OpResult::Same);
        Op::add(ops, "+", 2, OpMatch::Arithmetic, int_ty.clone(), OpResult::Same);
        Op::add(ops, "-", 2, OpMatch::Arithmetic, int_ty.clone(), OpResult::Same);
        Op::add(ops, "<<", 2, OpMatch::Unsigned, uint_ty.clone(), OpResult::Same);
        Op::add(ops, ">>", 2, OpMatch::Unsigned, uint_ty.clone(), OpResult::Same);
        Op::add(ops, ">", 2, OpMatch::Builtin, same_ty.clone(), OpResult::AlwaysBool);
        Op::add(ops, "<", 2, OpMatch::Builtin, same_ty.clone(), OpResult::AlwaysBool);
        Op::add(ops, ">=", 2, OpMatch::Builtin, same_ty.clone(), OpResult::AlwaysBool);
        Op::add(ops, "<=", 2, OpMatch::Builtin, same_ty.clone(), OpResult::AlwaysBool);
        Op::add(ops, "==", 2, OpMatch::Builtin, same_ty.clone(), OpResult::AlwaysBool);
        Op::add(ops, "!=", 2, OpMatch::Builtin, same_ty.clone(), OpResult::AlwaysBool);
        Op::add(ops, "&", 2, OpMatch::Unsigned, uint_ty.clone(), OpResult::Same);
        Op::add(ops, "^", 2, OpMatch::Unsigned, uint_ty.clone(), OpResult::Same);
        Op::add(ops, "|", 2, OpMatch::Unsigned, uint_ty.clone(), OpResult::Same);
        Op::add(ops, "&&", 2, OpMatch::Bool, bool_ty.clone(), OpResult::Same);
        Op::add(ops, "||", 2, OpMatch::Bool, bool_ty.clone(), OpResult::Same);
        Op::add(ops, "++a", 1, OpMatch::MutableInteger, same_ty.clone(), OpResult::Same);
        Op::add(ops, "++b", 1, OpMatch::MutableInteger, same_ty.clone(), OpResult::Same);
        Op::add(ops, "--a", 1, OpMatch::MutableInteger, same_ty.clone(), OpResult::Same);
        Op::add(ops, "--b", 1, OpMatch::MutableInteger, same_ty.clone(), OpResult::Same);
        Op::add(ops, "+", 1, OpMatch::Arithmetic, int_ty.clone(), OpResult::Same);
        Op::add(ops, "-", 1, OpMatch::Arithmetic, int_ty.clone(), OpResult::Same);
        Op::add(ops, "&", 1, OpMatch::Any, same_ty.clone(), OpResult::AddrOf);
        Op::add(ops, "*", 1, OpMatch::Deref, same_ty.clone(), OpResult::DerefOne);
        Op::add(ops, "!", 1, OpMatch::Bool, bool_ty.clone(), OpResult::Same);
        Op::add(ops, "~", 1, OpMatch::Unsigned, uint_ty, OpResult::Same);
        proof {
            assert(ops_view(ops@) =~~= ops_view(old(ops)@) + standard_ops());
        }
    }

    /// Finds the descriptor for a symbol and arity.
    pub fn find(ops: &Vec<Op>, name: &Vec<char>, operands: u8) -> (r: Option<usize>)
        ensures
            match r {
                Some(i) => op_find(ops_view(ops@), name@, operands) == Some(i as int) && i
                    < ops@.len(),
                None => op_find(ops_view(ops@), name@, operands) is None,
            },
    {
        let ghost ov = ops_view(ops@);
        let mut i: usize = 0;
        assert(ov.skip(0) =~= ov);
        while i < ops.len()
            invariant
                ov == ops_view(ops@),
                ov.len() == ops@.len(),
                0 <= i <= ops@.len(),
                op_find(ov, name@, operands) == match op_find(ov.skip(i as int), name@, operands) {
                    Some(k) => Some(k + i as int),
                    None => None::<int>,
                },
            decreases ops@.len() - i,
        {
            proof {
                assert(ov.skip(i as int)[0] == ov[i as int]);
                assert(ov.skip(i as int).drop_first() =~= ov.skip(i as int + 1));
            }
            if ops[i].operands == operands && chars_eq(&ops[i].name, name) {
                assert(op_find(ov.skip(i as int), name@, operands) == Some(0int));
                return Some(i);
            }
            i = i + 1;
        }
        proof {
            assert(ov.skip(i as int) =~= Seq::<OpV>::empty());
        }
        None
    }
}

/// The fixed operator table is well formed: every fallback type indexes
/// the registry or is the sentinel.
pub proof fn lemma_standard_ops_wf()
    ensures
        ops_wf(standard_ops()),
{
    assert forall|i: int| 0 <= i < standard_ops().len() implies 0 <= (#[trigger] standard_ops()[i]).default.idx <= 12 by {
        if i < 14 {
            if i < 7 {
                assert(0 <= standard_ops()[i].default.idx <= 12);
            } else {
                assert(0 <= standard_ops()[i].default.idx <= 12);
            }
        } else {
            if i < 21 {
                assert(0 <= standard_ops()[i].default.idx <= 12);
            } else {
                assert(0 <= standard_ops()[i].default.idx <= 12);
            }
        }
    }
}

/// A found operator index lies within the table.
pub proof fn lemma_op_find_bounds(ops: Seq<OpV>, name: Seq<char>, operands: u8)
    ensures
        op_find(ops, name, operands) is Some ==> 0 <= op_find(ops, name, operands).unwrap()
            < ops.len(),
    decreases ops.len(),
{
    if ops.len() > 0 && !(ops[0].name == name && ops[0].operands == operands) {
        lemma_op_find_bounds(ops.drop_first(), name, operands);
    }
}

/// Two integer literals of the default integer type joined by the
/// addition operator emit exactly as themselves around the symbol, still
/// at that type: the emitted program, once compiled and run, computes
/// their sum.
pub proof fn lemma_literal_addition(types: Seq<FullTypeV>, n: Seq<char>, m: Seq<char>)
    requires
        n.len() > 0,
        crate::text::all_digits(n),
        m.len() > 0,
        crate::text::all_digits(m),
    ensures
        ({
            let lit_ty = TypeIDV { idx: 3, ptr: Seq::<bool>::empty(), mutable: false };
            let x = ExprV { name: n, ty: lit_ty };
            let o = OperandV { op: 3, expr: ExprV { name: m, ty: lit_ty } };
            spec_binop_union(types, standard_ops(), x, seq![o]) == Ok::<ExprV, CError>(
                ExprV { name: n + seq![' '] + "+"@ + seq![' '] + m, ty: lit_ty },
            )
        }),
{
    let lit_ty = TypeIDV { idx: 3, ptr: Seq::<bool>::empty(), mutable: false };
    let x = ExprV { name: n, ty: lit_ty };
    let o = OperandV { op: 3, expr: ExprV { name: m, ty: lit_ty } };
    let table = standard_ops();
    assert(table[3].name == "+"@);
    assert(table[3].matching == OpMatch::Arithmetic);
    assert(table[3].result == OpResult::Same);
    assert(tid_eq(x.ty, o.expr.ty));
    assert(spec_accepts(table[3].matching, x.ty) == Ok::<bool, CError>(true));
    lemma_binop_same_type(types, table, x, o);
    assert(seq![o][0] == o);
    assert(seq![o].drop_first() =~= Seq::<OperandV>::empty());
    assert(spec_binop_union(types, table, x, seq![o]) == match spec_binop_step(types, table, x, seq![o][0]) {
        Ok(x1) => spec_binop_union(types, table, x1, seq![o].drop_first()),
        Err(e) => Err(e),
    });
}

/// The mathematical value of a pending operand.
#[verifier::ext_equal]
pub struct OperandV {
    pub op: int,
    pub expr: ExprV,
}

/// A pending operand: a descriptor index and the expression to its right.
pub struct Operand {
    pub op: usize,
    pub expr: Expr,
}

impl View for Operand {
    type V = OperandV;

    open spec fn view(&self) -> OperandV {
        OperandV { op: self.op as int, expr: self.expr@ }
    }
}

/// The operand list as a sequence of values.
pub open spec fn operands_view(ops: Seq<Operand>) -> Seq<OperandV> {
    ops.map(|i: int, o: Operand| o@)
}

impl Operand {
    /// Builds a pending operand from an operator symbol.
    pub fn new(ops: &Vec<Op>, name: &Vec<char>, expr: Expr, operands: u8) -> (r: Result<
        Operand,
        CError,
    >)
        ensures
            match r {
                Ok(o) => {
                    &&& op_find(ops_view(ops@), name@, operands) == Some(o@.op)
                    &&& 0 <= o@.op < ops@.len()
                    &&& o@.expr == expr@
                },
                Err(e) => {
                    &&& e == CError::UnknownOperator
                    &&& op_find(ops_view(ops@), name@, operands) is None
                },
            },
    {
        match Op::find(ops, name, operands) {
            Some(i) => Ok(Operand { op: i, expr }),
            None => Err(CError::UnknownOperator),
        }
    }

    /// Types a numeric literal: with a decimal point it is a float,
    /// otherwise the default integer type.
    pub fn parse_to_num(i: Vec<char>) -> (r: Expr)
        ensures
            r@.name == i@,
            r@.ty == (if crate::builtin_ty::find_char(i@, '.') is Some {
                TypeIDV { idx: 10, ptr: Seq::<bool>::empty(), mutable: false }
            } else {
                TypeIDV { idx: 3, ptr: Seq::<bool>::empty(), mutable: false }
            }),
    {
        let ghost iv = i@;
        let mut has_dot = false;
        let mut k: usize = 0;
        assert(iv.skip(0) =~= iv);
        while k < i.len()
            invariant
                iv == i@,
                0 <= k <= iv.len(),
                !has_dot ==> crate::builtin_ty::find_char(iv, '.') == (match
                    crate::builtin_ty::find_char(iv.skip(k as int), '.') {
                    Some(j) => Some(j + k as int),
                    None => None::<int>,
                }),
                has_dot ==> crate::builtin_ty::find_char(iv, '.') is Some,
            decreases iv.len() - k,
        {
            proof {
                assert(iv.skip(k as int)[0] == iv[k as int]);
                assert(iv.skip(k as int).drop_first() =~= iv.skip(k as int + 1));
            }
            if i[k] == '.' {
                proof {
                    if !has_dot {
                        assert(crate::builtin_ty::find_char(iv.skip(k as int), '.') == Some(0int));
                    }
                }
                has_dot = true;
            }
            k = k + 1;
        }
        proof {
            if !has_dot {
                assert(iv.skip(k as int) =~= Seq::<char>::empty());
            }
        }
        let ty = if has_dot {
            BuiltinType::Float.as_id()
        } else {
            BuiltinType::UnsignedChar.as_id()
        };
        Expr::new(i, &ty)
    }

    /// Types a variable reference against the active function's bindings.
    pub fn parse_to_var(active: &Function, i: &Vec<char>) -> (r: Result<Expr, CError>)
        ensures
            match r {
                Ok(e) => {
                    &&& let_find(active@.lets, i@) is Some
                    &&& e@.name == i@
                    &&& e@.ty == active@.lets[let_find(active@.lets, i@).unwrap()].ty
                },
                Err(x) => {
                    &&& x == CError::UnknownVariable
                    &&& let_find(active@.lets, i@) is None
                },
            },
    {
        match active.type_of_let(i) {
            Some(t) => Ok(Expr { name: i.clone(), ty: t }),
            None => Err(CError::UnknownVariable),
        }
    }
}

/// One dominance-guided coercion: `x` is the dominant side. When the
/// dominant type fails the predicate but the weaker passes, the dominant
/// side converts down; when neither passes, both fall back; otherwise the
/// weaker side converts up.
pub open spec fn spec_dominant_convert(
    types: Seq<FullTypeV>,
    x: ExprV,
    y: ExprV,
    m: OpMatch,
    d: TypeIDV,
) -> Result<(ExprV, ExprV), CError> {
    match spec_accepts(m, x.ty) {
        Err(e) => Err(e),
        Ok(ax) => if !ax {
            match spec_accepts(m, y.ty) {
                Err(e) => Err(e),
                Ok(ay) => if ay {
                    match spec_expr_convert(types, x, y.ty) {
                        Ok(x1) => Ok((x1, y)),
                        Err(e) => Err(e),
                    }
                } else {
                    match spec_expr_convert(types, x, d) {
                        Ok(x1) => match spec_expr_convert(types, y, d) {
                            Ok(y1) => Ok((x1, y1)),
                            Err(e) => Err(e),
                        },
                        Err(e) => Err(e),
                    }
                },
            }
        } else {
            match spec_expr_convert(types, y, x.ty) {
                Ok(y1) => Ok((x, y1)),
                Err(e) => Err(e),
            }
        },
    }
}

/// One binary resolution step: a placeholder-typed operand stops the
/// translation; otherwise the weaker operand is coerced as dominance and
/// the operator's predicate dictate, the texts are joined around the
/// symbol, and the result rule types the outcome.
pub open spec fn spec_binop_step(
    types: Seq<FullTypeV>,
    table: Seq<OpV>,
    x: ExprV,
    o: OperandV,
) -> Result<ExprV, CError> {
    let op = table[o.op];
    if x.ty.idx == 12 || o.expr.ty.idx == 12 {
        Err(CError::NotConvertible)
    } else {
        let sides = match spec_dominant(types, x.ty, o.expr.ty) {
            Dominant::Similar => match spec_accepts(op.matching, x.ty) {
                Err(e) => Err(e),
                Ok(acc) => if !acc {
                    match spec_expr_convert(types, x, op.default) {
                        Ok(x1) => match spec_expr_convert(types, o.expr, op.default) {
                            Ok(y1) => Ok((x1, y1)),
                            Err(e) => Err(e),
                        },
                        Err(e) => Err(e),
                    }
                } else {
                    Ok((x, o.expr))
                },
            },
            Dominant::A => spec_dominant_convert(types, x, o.expr, op.matching, op.default),
            Dominant::B => match spec_dominant_convert(
                types,
                o.expr,
                x,
                op.matching,
                op.default,
            ) {
                Ok(p) => Ok((p.1, p.0)),
                Err(e) => Err(e),
            },
        };
        match sides {
            Err(e) => Err(e),
            Ok(p) => Ok(
                ExprV {
                    name: p.0.name + seq![' '] + op.name + seq![' '] + p.1.name,
                    ty: spec_result(op.result, p.0.ty),
                },
            ),
        }
    }
}

/// Folding the pending operands into the left expression, one step at a
/// time.
pub open spec fn spec_binop_union(
    types: Seq<FullTypeV>,
    table: Seq<OpV>,
    x: ExprV,
    ops: Seq<OperandV>,
) -> Result<ExprV, CError>
    decreases ops.len(),
{
    if ops.len() == 0 {
        Ok(x)
    } else {
        match spec_binop_step(types, table, x, ops[0]) {
            Ok(x1) => spec_binop_union(types, table, x1, ops.drop_first()),
            Err(e) => Err(e),
        }
    }
}

/// Joining two operands of one accepted type leaves both texts unchanged:
/// the emitted text is the left text, the symbol, and the right text, and
/// the result rule types it from the unchanged left type. Two integer
/// literals hence emit as themselves around the symbol, so the emitted
/// program computes exactly their sum, difference, or product.
pub proof fn lemma_binop_same_type(types: Seq<FullTypeV>, table: Seq<OpV>, x: ExprV, o: OperandV)
    requires
        0 <= o.op < table.len(),
        0 <= x.ty.idx < 12,
        tid_eq(x.ty, o.expr.ty),
        spec_accepts(table[o.op].matching, x.ty) == Ok::<bool, CError>(true),
    ensures
        spec_binop_step(types, table, x, o) == Ok::<ExprV, CError>(
            ExprV {
                name: x.name + seq![' '] + table[o.op].name + seq![' '] + o.expr.name,
                ty: spec_result(table[o.op].result, x.ty),
            },
        ),
{
    assert(spec_dominant(types, x.ty, o.expr.ty) == Dominant::Similar);
}

/// The binary resolver.
pub struct Binop;

impl Binop {
    /// The exec side of `spec_dominant_convert`: `x` is the dominant
    /// operand.
    fn dominant(
        types: &Vec<FullType>,
        x: &mut Expr,
        y: &mut Expr,
        matching: OpMatch,
        default: &TypeID,
    ) -> (r: Result<(), CError>)
        requires
            reg_view(types@).len() == 12,
            0 <= old(x)@.ty.idx <= 12,
            0 <= old(y)@.ty.idx <= 12,
            0 <= default@.idx <= 12,
        ensures
            match r {
                Ok(_) => spec_dominant_convert(
                    reg_view(types@),
                    old(x)@,
                    old(y)@,
                    matching,
                    default@,
                ) == Ok::<(ExprV, ExprV), CError>((final(x)@, final(y)@)),
                Err(e) => spec_dominant_convert(
                    reg_view(types@),
                    old(x)@,
                    old(y)@,
                    matching,
                    default@,
                ) == Err::<(ExprV, ExprV), CError>(e),
            },
    {
        let ax = match accepts(matching, &x.ty) {
            Ok(b) => b,
            Err(e) => {
                return Err(e);
            },
        };
        if !ax {
            let ay = match accepts(matching, &y.ty) {
                Ok(b) => b,
                Err(e) => {
                    return Err(e);
                },
            };
            if ay {
                let yt = y.ty.clone();
                match x.convert(types, &yt) {
                    Ok(_) => Ok(()),
                    Err(e) => Err(e),
                }
            } else {
                match x.convert(types, default) {
                    Ok(_) => {},
                    Err(e) => {
                        return Err(e);
                    },
                }
                match y.convert(types, default) {
                    Ok(_) => Ok(()),
                    Err(e) => Err(e),
                }
            }
        } else {
            let xt = x.ty.clone();
            match y.convert(types, &xt) {
                Ok(_) => Ok(()),
                Err(e) => Err(e),
            }
        }
    }

    /// Folds the pending operands into the left expression: each step
    /// coerces by dominance, joins the texts around the symbol, and types
    /// the outcome by the operator's result rule.
    pub fn union(types: &Vec<FullType>, table: &Vec<Op>, x: Expr, ops: Vec<Operand>) -> (r: Result<
        Expr,
        CError,
    >)
        requires
            reg_view(types@).len() == 12,
            ops_wf(ops_view(table@)),
            0 <= x@.ty.idx <= 12,
            forall|i: int|
                0 <= i < ops@.len() ==> {
                    &&& 0 <= (#[trigger] operands_view(ops@)[i]).op < table@.len()
                    &&& 0 <= operands_view(ops@)[i].expr.ty.idx <= 12
                },
        ensures
            match r {
                Ok(e) => spec_binop_union(reg_view(types@), ops_view(table@), x@, operands_view(ops@))
                    == Ok::<ExprV, CError>(e@) && 0 <= e@.ty.idx <= 12,
                Err(e) => spec_binop_union(
                    reg_view(types@),
                    ops_view(table@),
                    x@,
                    operands_view(ops@),
                ) == Err::<ExprV, CError>(e),
            },
    {
        let ghost allops = operands_view(ops@);
        let ghost tbl = ops_view(table@);
        let ghost xstart = x@;
        let mut cur = x;
        let mut i: usize = 0;
        assert(allops.skip(0) =~= allops);
        #[verifier::loop_isolation(false)]
        while i < ops.len()
            invariant
                reg_view(types@).len() == 12,
                tbl == ops_view(table@),
                tbl.len() == table@.len(),
                ops_wf(tbl),
                allops == operands_view(ops@),
                allops.len() == ops@.len(),
                0 <= i <= ops@.len(),
                0 <= cur@.ty.idx <= 12,
                forall|j: int|
                    0 <= j < allops.len() ==> {
                        &&& 0 <= (#[trigger] allops[j]).op < tbl.len()
                        &&& 0 <= allops[j].expr.ty.idx <= 12
                    },
                spec_binop_union(reg_view(types@), tbl, cur@, allops.skip(i as int))
                    == spec_binop_union(reg_view(types@), tbl, xstart, allops),
            decreases ops@.len() - i,
        {
            proof {
                assert(allops.skip(i as int)[0] == allops[i as int]);
                assert(allops.skip(i as int).drop_first() =~= allops.skip(i as int + 1));
            }
            let ghost xc = cur@;
            let next = Self::step(types, table, cur, &ops[i]);
            match next {
                Ok(x1) => {
                    cur = x1;
                },
                Err(e) => {
                    proof {
                        assert(allops[i as int] == ops@[i as int]@);
                        assert(spec_binop_step(reg_view(types@), tbl, xc, allops[i as int])
                            == Err::<ExprV, CError>(e));
                        assert(spec_binop_union(reg_view(types@), tbl, xc, allops.skip(i as int))
                            == Err::<ExprV, CError>(e));
                        assert(spec_binop_union(reg_view(types@), tbl, xstart, allops) == Err::<
                            ExprV,
                            CError,
                        >(e));
                    }
                    return Err(e);
                },
            }
            i = i + 1;
        }
        proof {
            assert(allops.skip(i as int) =~= Seq::<OperandV>::empty());
        }
        Ok(cur)
    }

    /// One resolution step, as `spec_binop_step` states it.
    fn step(types: &Vec<FullType>, table: &Vec<Op>, x: Expr, o: &Operand) -> (r: Result<
        Expr,
        CError,
    >)
        requires
            reg_view(types@).len() == 12,
            ops_wf(ops_view(table@)),
            0 <= o@.op < table@.len(),
            0 <= x@.ty.idx <= 12,
            0 <= o@.expr.ty.idx <= 12,
        ensures
            match r {
                Ok(e) => spec_binop_step(reg_view(types@), ops_view(table@), x@, o@) == Ok::<
                    ExprV,
                    CError,
                >(e@) && 0 <= e@.ty.idx <= 12,
                Err(e) => spec_binop_step(reg_view(types@), ops_view(table@), x@, o@) == Err::<
                    ExprV,
                    CError,
                >(e),
            },
    {
        let ghost tbl = ops_view(table@);
        let ghost x0 = x@;
        let mut x = x;
        let oi = o.op;
        let mut y = o.expr.clone();
        if x.ty.idx == 12 || y.ty.idx == 12 {
            return Err(CError::NotConvertible);
        }
        let step = match BuiltinType::dominant(types, &x.ty, &y.ty) {
            Dominant::Similar => {
                let acc = match accepts(table[oi].matching, &x.ty) {
                    Ok(b) => b,
                    Err(e) => {
                        return Err(e);
                    },
                };
                if !acc {
                    let d = table[oi].default.clone();
                    match x.convert(types, &d) {
                        Ok(_) => {},
                        Err(e) => {
                            return Err(e);
                        },
                    }
                    match y.convert(types, &d) {
                        Ok(_) => {},
                        Err(e) => {
                            return Err(e);
                        },
                    }
                }
                Ok(())
            },
            Dominant::A => Self::dominant(
                types,
                &mut x,
                &mut y,
                table[oi].matching,
                &table[oi].default,
            ),
            Dominant::B => Self::dominant(
                types,
                &mut y,
                &mut x,
                table[oi].matching,
                &table[oi].default,
            ),
        };
        match step {
            Ok(_) => {},
            Err(e) => {
                return Err(e);
            },
        }
        let ghost xs = x@;
        let ghost ys = y@;
        proof {
            assert(spec_binop_step(reg_view(types@), tbl, x0, o@) == Ok::<ExprV, CError>(
                ExprV {
                    name: xs.name + seq![' '] + tbl[o@.op].name + seq![' '] + ys.name,
                    ty: spec_result(tbl[o@.op].result, xs.ty),
                },
            ));
        }
        let Expr { name: mut name, ty: xty } = x;
        name.push(' ');
        push_all(&mut name, &table[oi].name);
        name.push(' ');
        push_all(&mut name, &y.name);
        let rty = apply_result(table[oi].result, &xty);
        proof {
            assert(name@ =~= xs.name + seq![' '] + tbl[o@.op].name + seq![' '] + ys.name);
        }
        Ok(Expr { name, ty: rty })
    }
}

/// What unary resolution yields: the lowered expression together with the
/// active function record as the operator leaves it. A dereference inside
/// a function without the explicit safety marker demotes its safety flag;
/// a step operator promotes the touched binding to mutable and lowers to
/// the matching runtime-library call.
pub open spec fn spec_unop(
    types: Seq<FullTypeV>,
    table: Seq<OpV>,
    active: FunctionV,
    x: ExprV,
    sym: Seq<char>,
) -> Result<(ExprV, FunctionV), CError> {
    match op_find(table, sym, 1) {
        None => Err(CError::UnknownOperator),
        Some(oi) => {
            let op = table[oi];
            match spec_accepts(op.matching, x.ty) {
                Err(e) => Err(e),
                Ok(acc) => {
                    let conv = if !acc {
                        spec_expr_convert(types, x, op.default)
                    } else {
                        Ok(x)
                    };
                    match conv {
                        Err(e) => Err(e),
                        Ok(x1) => {
                            let plain = (if sym == "~"@ {
                                "!"@
                            } else {
                                sym
                            }) + x1.name;
                            let lowered = if sym == "*"@ {
                                if has_attr(active.attrs, seq!['%', 'S']) {
                                    (("unsafe { "@ + plain + " }"@), active)
                                } else {
                                    (
                                        plain,
                                        FunctionV {
                                            flags: FnFlags {
                                                safe: false,
                                                public: active.flags.public,
                                            },
                                            ..active
                                        },
                                    )
                                }
                            } else if sym == "++a"@ {
                                (step_call("::qas::builtin::inca(&mut "@, x1.name), promote(active, x1.name))
                            } else if sym == "++b"@ {
                                (step_call("::qas::builtin::incb(&mut "@, x1.name), promote(active, x1.name))
                            } else if sym == "--a"@ {
                                (step_call("::qas::builtin::deca(&mut "@, x1.name), promote(active, x1.name))
                            } else if sym == "--b"@ {
                                (step_call("::qas::builtin::decb(&mut "@, x1.name), promote(active, x1.name))
                            } else {
                                (plain, active)
                            };
                            Ok(
                                (
                                    ExprV { name: lowered.0, ty: spec_result(op.result, x1.ty) },
                                    lowered.1,
                                ),
                            )
                        },
                    }
                },
            }
        },
    }
}

/// The runtime-library step call around an operand text.
pub open spec fn step_call(prefix: Seq<char>, operand: Seq<char>) -> Seq<char> {
    prefix + operand + seq![')']
}

/// The active function with the named binding promoted to mutable, when
/// it has one.
pub open spec fn promote(f: FunctionV, name: Seq<char>) -> FunctionV {
    match let_find(f.lets, name) {
        Some(k) => FunctionV {
            lets: f.lets.update(k, LetV { name: f.lets[k].name, mutable: true, ty: f.lets[k].ty }),
            ..f
        },
        None => f,
    }
}

/// The unary resolver.
pub struct Unop;

impl Unop {
    /// Resolves one unary operator against the operand, lowering the
    /// symbol-specific cases and updating the active function record.
    pub fn union(
        types: &Vec<FullType>,
        table: &Vec<Op>,
        fns: &mut Vec<Function>,
        x: Expr,
        operator: &str,
    ) -> (r: Result<Expr, CError>)
        requires
            reg_view(types@).len() == 12,
            ops_wf(ops_view(table@)),
            0 <= x@.ty.idx <= 12,
            old(fns)@.len() > 0,
        ensures
            final(fns)@.len() == old(fns)@.len(),
            fns_view(final(fns)@).take(old(fns)@.len() - 1) =~= fns_view(old(fns)@).take(
                old(fns)@.len() - 1,
            ),
            match r {
                Ok(e) => spec_unop(
                    reg_view(types@),
                    ops_view(table@),
                    fns_view(old(fns)@).last(),
                    x@,
                    operator@,
                ) == Ok::<(ExprV, FunctionV), CError>((e@, fns_view(final(fns)@).last())),
                Err(e) => {
                    &&& spec_unop(
                        reg_view(types@),
                        ops_view(table@),
                        fns_view(old(fns)@).last(),
                        x@,
                        operator@,
                    ) == Err::<(ExprV, FunctionV), CError>(e)
                    &&& final(fns)@ == old(fns)@
                },
            },
    {
        let ghost xin = x@;
        let ghost tbl = ops_view(table@);
        let ghost f0 = fns_view(old(fns)@).last();
        let sym = str_to_chars(operator);
        let oi = match Op::find(table, &sym, 1) {
            Some(i) => i,
            None => {
                return Err(CError::UnknownOperator);
            },
        };
        let mut x = x;
        let acc = match accepts(table[oi].matching, &x.ty) {
            Ok(b) => b,
            Err(e) => {
                return Err(e);
            },
        };
        if !acc {
            let d = table[oi].default.clone();
            match x.convert(types, &d) {
                Ok(_) => {},
                Err(e) => {
                    return Err(e);
                },
            }
        }
        let ghost x1 = x@;
        let is_tilde = sym.len() == 1 && sym[0] == '~';
        let is_deref = sym.len() == 1 && sym[0] == '*';
        proof {
            reveal_strlit("~");
            reveal_strlit("*");
            reveal_strlit("!");
            if is_tilde {
                assert(sym@ =~= "~"@);
            }
            if is_deref {
                assert(sym@ =~= "*"@);
            }
            assert(is_tilde == (sym@ == "~"@));
            assert(is_deref == (sym@ == "*"@));
        }
        let mut content: Vec<char> = Vec::new();
        if is_tilde {
            content.push('!');
            proof {
                assert(content@ =~= "!"@);
            }
        } else {
            push_all(&mut content, &sym);
        }
        push_all(&mut content, &x.name);
        let step = Self::step_kind(&sym);
        if is_deref {
            let fi = fns.len() - 1;
            if Function::get(fns).should_be_safe() {
                let mut wrapped: Vec<char> = Vec::new();
                push_str_chars(&mut wrapped, "unsafe { ");
                push_all(&mut wrapped, &content);
                push_str_chars(&mut wrapped, " }");
                content = wrapped;
            } else {
                let old_flags = fns[fi].flags;
                fns[fi].flags = FnFlags { safe: false, public: old_flags.public };
                proof {
                    assert(fns_view(fns@).take(old(fns)@.len() - 1) =~= fns_view(old(fns)@).take(
                        old(fns)@.len() - 1,
                    ));
                    assert(fns_view(fns@).last() =~~= FunctionV {
                        flags: FnFlags {
                            safe: false,
                            public: fns_view(old(fns)@).last().flags.public,
                        },
                        ..fns_view(old(fns)@).last()
                    });
                }
            }
        } else if step.is_some() {
            let prefix: &str = match step {
                Some(k) => {
                    if k == 0u8 {
                        "::qas::builtin::inca(&mut "
                    } else if k == 1u8 {
                        "::qas::builtin::incb(&mut "
                    } else if k == 2u8 {
                        "::qas::builtin::deca(&mut "
                    } else {
                        "::qas::builtin::decb(&mut "
                    }
                },
                None => "",
            };
            Function::check_and_make_mutable_on_require(fns, &x.name);
            let mut call: Vec<char> = Vec::new();
            push_str_chars(&mut call, prefix);
            push_all(&mut call, &x.name);
            call.push(')');
            content = call;
        }
        let rty = apply_result(table[oi].result, &x.ty);
        proof {
            let reg = reg_view(types@);
            let plain = (if sym@ == "~"@ {
                "!"@
            } else {
                sym@
            }) + x1.name;
            if is_deref {
                if has_attr(f0.attrs, seq!['%', 'S']) {
                    assert(content@ =~= "unsafe { "@ + plain + " }"@);
                } else {
                    assert(content@ =~= plain);
                }
            } else if sym@ == "++a"@ {
                assert(content@ =~= step_call("::qas::builtin::inca(&mut "@, x1.name));
                assert(fns_view(fns@).last() == promote(f0, x1.name));
            } else if sym@ == "++b"@ {
                assert(content@ =~= step_call("::qas::builtin::incb(&mut "@, x1.name));
                assert(fns_view(fns@).last() == promote(f0, x1.name));
            } else if sym@ == "--a"@ {
                assert(content@ =~= step_call("::qas::builtin::deca(&mut "@, x1.name));
                assert(fns_view(fns@).last() == promote(f0, x1.name));
            } else if sym@ == "--b"@ {
                assert(content@ =~= step_call("::qas::builtin::decb(&mut "@, x1.name));
                assert(fns_view(fns@).last() == promote(f0, x1.name));
            } else {
                assert(content@ =~= plain);
            }
            assert(spec_unop(reg, tbl, f0, xin, operator@) == Ok::<(ExprV, FunctionV), CError>(
                (
                    ExprV { name: content@, ty: spec_result(tbl[oi as int].result, x1.ty) },
                    fns_view(fns@).last(),
                ),
            ));
        }
        Ok(Expr { name: content, ty: rty })
    }

    /// Which step operator a symbol is: post/pre increment, post/pre
    /// decrement, or none.
    fn step_kind(sym: &Vec<char>) -> (r: Option<u8>)
        ensures
            (r == Some(0u8)) == (sym@ == "++a"@),
            (r == Some(1u8)) == (sym@ == "++b"@),
            (r == Some(2u8)) == (sym@ == "--a"@),
            (r == Some(3u8)) == (sym@ == "--b"@),
            r is Some ==> (sym@ == "++a"@ || sym@ == "++b"@ || sym@ == "--a"@ || sym@ == "--b"@),
    {
        proof {
            reveal_strlit("++a");
            reveal_strlit("++b");
            reveal_strlit("--a");
            reveal_strlit("--b");
        }
        if sym.len() != 3 {
            proof {
                assert(sym@ != "++a"@ && sym@ != "++b"@ && sym@ != "--a"@ && sym@ != "--b"@);
            }
            return None;
        }
        let c0 = sym[0];
        let c1 = sym[1];
        let c2 = sym[2];
        if c0 == '+' && c1 == '+' && c2 == 'a' {
            assert(sym@ =~= "++a"@);
            Some(0)
        } else if c0 == '+' && c1 == '+' && c2 == 'b' {
            assert(sym@ =~= "++b"@);
            Some(1)
        } else if c0 == '-' && c1 == '-' && c2 == 'a' {
            assert(sym@ =~= "--a"@);
            Some(2)
        } else if c0 == '-' && c1 == '-' && c2 == 'b' {
            assert(sym@ =~= "--b"@);
            Some(3)
        } else {
            proof {
                assert(sym@ != "++a"@ && sym@ != "++b"@ && sym@ != "--a"@ && sym@ != "--b"@);
            }
            None
        }
    }
}

} // verus!
