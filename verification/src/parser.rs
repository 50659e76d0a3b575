//! The expression and statement parser: grammar-driven recursive descent
//! with precedence climbing, consulting the type, operator and function
//! tables, and assembling the emitted target text as it goes.

use vstd::prelude::*;

use crate::bits::{bits_clone, bits_new, BitPtrIter};
use crate::builtin_ty::{builtin_registry, BuiltinType, Dominant};
use crate::err::CError;
use crate::fns::{fns_view, lets_view, BuiltinFunction, FnFlags, Function, FunctionV, Let, LetV, Tab};
use crate::op::{ops_view, standard_ops, Binop, Expr, ExprV, Op, Operand, Unop};
use crate::preprocessor::{preprocess_file, read_quoted, Preproc, SourceSet, NESTING_LIMIT};
use crate::text::{
    chars_eq, chars_to_str, deparentify, is_digit, is_letter, is_word_char, parentify,
    push_all, push_str_chars, str_to_chars, word_is,
};
use crate::ty::{aliases_view, reg_view, AliasType, AliasV, FullType, TypeID, TypeIDV};

verus! {

/// A type identity whose index stays within the registry or is the
/// sentinel just past it.
pub open spec fn tid_bounded(t: TypeIDV) -> bool {
    0 <= t.idx <= 12
}

/// A well-formed binding.
pub open spec fn let_wf(l: LetV) -> bool {
    tid_bounded(l.ty)
}

/// A well-formed function record: parameters are a prefix of the
/// bindings, and every type stays within the registry.
pub open spec fn fn_wf(f: FunctionV) -> bool {
    &&& tid_bounded(f.ret)
    &&& 0 <= f.args <= f.lets.len()
    &&& forall|i: int| 0 <= i < f.lets.len() ==> let_wf(#[trigger] f.lets[i])
}

/// A well-formed runtime-library signature.
pub open spec fn builtin_fn_wf(b: &BuiltinFunction) -> bool {
    &&& tid_bounded(b.ret@)
    &&& forall|i: int| 0 <= i < b.args@.len() ==> tid_bounded((#[trigger] b.args@[i])@)
}

/// The compilation context: every table the parser consults, owned by
/// the call that starts a translation so that independent translations
/// never interfere.
pub struct Ctx {
    pub types: Vec<FullType>,
    pub aliases: Vec<AliasType>,
    pub ops: Vec<Op>,
    pub fns: Vec<Function>,
    pub builtins: Vec<BuiltinFunction>,
}

/// The parser's standing assumptions: the builtin registry and operator
/// table are the fixed ones, and every recorded type stays within the
/// registry.
pub open spec fn ctx_wf(c: Ctx) -> bool {
    &&& reg_view(c.types@) == builtin_registry()
    &&& ops_view(c.ops@) == standard_ops()
    &&& forall|i: int| 0 <= i < c.aliases@.len() ==> 0 <= (#[trigger] c.aliases@[i])@.id.idx < 12
    &&& forall|i: int| 0 <= i < c.fns@.len() ==> fn_wf((#[trigger] c.fns@[i])@)
    &&& forall|i: int| 0 <= i < c.builtins@.len() ==> builtin_fn_wf(&(#[trigger] c.builtins@[i]))
}

impl Ctx {
    /// A fresh context: the builtin registry, the operator table, no
    /// aliases, no functions.
    pub fn new() -> (r: Ctx)
        ensures
            ctx_wf(r),
            r.fns@.len() == 0,
    {
        let mut types: Vec<FullType> = Vec::new();
        BuiltinType::add_all(&mut types);
        let mut ops: Vec<Op> = Vec::new();
        Op::add_all(&mut ops);
        let mut builtins: Vec<BuiltinFunction> = Vec::new();
        BuiltinFunction::add_all(&mut builtins);
        let r = Ctx { types, aliases: Vec::new(), ops, fns: Vec::new(), builtins };
        proof {
            assert(reg_view(r.types@) =~= builtin_registry());
            assert(ops_view(r.ops@) =~= standard_ops());
        }
        r
    }
}

/// Skips spaces, tabs and newlines.
fn ws(text: &Vec<char>, pos: usize) -> (r: usize)
    requires
        pos <= text@.len(),
    ensures
        pos <= r <= text@.len(),
{
    let mut i = pos;
    while i < text.len() && (text[i] == ' ' || text[i] == '\t' || text[i] == '\n')
        invariant
            pos <= i <= text@.len(),
        decreases text@.len() - i,
    {
        i = i + 1;
    }
    i
}

/// Reads an identifier: a letter, then letters and digits.
fn word_at(text: &Vec<char>, pos: usize) -> (r: (Vec<char>, usize))
    requires
        pos <= text@.len(),
    ensures
        pos <= r.1 <= text@.len(),
        r.0@ == text@.subrange(pos as int, r.1 as int),
        pos < text@.len() && crate::text::spec_is_letter(text@[pos as int]) ==> r.1 > pos,
        r.0@.len() == r.1 - pos,
{
    let mut out: Vec<char> = Vec::new();
    let mut i = pos;
    if i < text.len() && is_letter(text[i]) {
        out.push(text[i]);
        i = i + 1;
        while i < text.len() && is_word_char(text[i])
            invariant
                pos <= i <= text@.len(),
                out@ =~= text@.subrange(pos as int, i as int),
            decreases text@.len() - i,
        {
            out.push(text[i]);
            i = i + 1;
            assert(out@ =~= text@.subrange(pos as int, i as int));
        }
    }
    assert(out@ =~= text@.subrange(pos as int, i as int));
    (out, i)
}

/// Whether a word is one of the builtin type keywords.
fn is_type_word(w: &Vec<char>) -> (r: bool) {
    word_is(w, "void") || word_is(w, "_Bool") || word_is(w, "char") || word_is(w, "short")
        || word_is(w, "int") || word_is(w, "long") || word_is(w, "float") || word_is(w, "double")
        || word_is(w, "signed") || word_is(w, "unsigned")
}

/// Reads one builtin type spelling, multi-word forms included; `None`
/// when the text does not start with one.
fn parse_builtin_ty(text: &Vec<char>, pos: usize) -> (r: Option<(BuiltinType, usize)>)
    requires
        pos <= text@.len(),
    ensures
        match r {
            Some(p) => pos < p.1 <= text@.len() && 0 <= crate::builtin_ty::bt_index(p.0) < 12,
            None => true,
        },
{
    let (w, q) = word_at(text, pos);
    if w.len() == 0 {
        return None;
    }
    if word_is(&w, "void") {
        return Some((BuiltinType::Void, q));
    }
    if word_is(&w, "_Bool") {
        return Some((BuiltinType::Bool, q));
    }
    if word_is(&w, "char") {
        return Some((BuiltinType::UnsignedChar, q));
    }
    if word_is(&w, "float") {
        return Some((BuiltinType::Float, q));
    }
    if word_is(&w, "double") {
        return Some((BuiltinType::Double, q));
    }
    if word_is(&w, "int") {
        return Some((BuiltinType::SignedInt, q));
    }
    if word_is(&w, "short") {
        let q2 = ws(text, q);
        let (w2, q3) = word_at(text, q2);
        if word_is(&w2, "int") {
            return Some((BuiltinType::SignedShort, q3));
        }
        return Some((BuiltinType::SignedShort, q));
    }
    if word_is(&w, "long") {
        let mut here = q;
        let q2 = ws(text, here);
        let (w2, q3) = word_at(text, q2);
        if word_is(&w2, "long") {
            here = q3;
            let q4 = ws(text, here);
            let (w3, q5) = word_at(text, q4);
            if word_is(&w3, "int") {
                here = q5;
            }
        } else if word_is(&w2, "int") {
            here = q3;
        }
        return Some((BuiltinType::SignedLong, here));
    }
    if word_is(&w, "signed") {
        let q2 = ws(text, q);
        let (w2, q3) = word_at(text, q2);
        if word_is(&w2, "char") {
            return Some((BuiltinType::SignedChar, q3));
        }
        if word_is(&w2, "short") {
            let q4 = ws(text, q3);
            let (w3, q5) = word_at(text, q4);
            if word_is(&w3, "int") {
                return Some((BuiltinType::SignedShort, q5));
            }
            return Some((BuiltinType::SignedShort, q3));
        }
        if word_is(&w2, "long") {
            let mut here = q3;
            let q4 = ws(text, here);
            let (w3, q5) = word_at(text, q4);
            if word_is(&w3, "long") {
                here = q5;
                let q6 = ws(text, here);
                let (w4, q7) = word_at(text, q6);
                if word_is(&w4, "int") {
                    here = q7;
                }
            } else if word_is(&w3, "int") {
                here = q5;
            }
            return Some((BuiltinType::SignedLong, here));
        }
        if word_is(&w2, "int") {
            return Some((BuiltinType::SignedInt, q3));
        }
        return Some((BuiltinType::SignedInt, q));
    }
    if word_is(&w, "unsigned") {
        let q2 = ws(text, q);
        let (w2, q3) = word_at(text, q2);
        if word_is(&w2, "char") {
            return Some((BuiltinType::UnsignedChar, q3));
        }
        if word_is(&w2, "short") {
            let q4 = ws(text, q3);
            let (w3, q5) = word_at(text, q4);
            if word_is(&w3, "int") {
                return Some((BuiltinType::UnsignedShort, q5));
            }
            return Some((BuiltinType::UnsignedShort, q3));
        }
        if word_is(&w2, "long") {
            let mut here = q3;
            let q4 = ws(text, here);
            let (w3, q5) = word_at(text, q4);
            if word_is(&w3, "long") {
                here = q5;
                let q6 = ws(text, here);
                let (w4, q7) = word_at(text, q6);
                if word_is(&w4, "int") {
                    here = q7;
                }
            } else if word_is(&w3, "int") {
                here = q5;
            }
            return Some((BuiltinType::UnsignedLong, here));
        }
        if word_is(&w2, "int") {
            return Some((BuiltinType::UnsignedInt, q3));
        }
        return Some((BuiltinType::UnsignedInt, q));
    }
    None
}

/// Reads a whole type: an optional `const` qualifier, a builtin spelling
/// or a registered alias, then pointer levels, each optionally `const`.
/// `None` when no type starts here.
fn parse_ty(ctx: &Ctx, text: &Vec<char>, pos: usize) -> (r: Option<(TypeID, usize)>)
    requires
        ctx_wf(*ctx),
        pos <= text@.len(),
    ensures
        match r {
            Some(p) => pos <= p.1 <= text@.len() && 0 <= p.0@.idx < 12,
            None => true,
        },
{
    let mut here = pos;
    let mut mutable = true;
    let (w0, q0) = word_at(text, here);
    if word_is(&w0, "const") {
        let q1 = ws(text, q0);
        if q1 > q0 {
            mutable = false;
            here = q1;
        }
    }
    let base: Option<(TypeID, usize)> = match parse_builtin_ty(text, here) {
        Some((bt, q)) => {
            let b = bt.as_id();
            let t = TypeID { idx: b.idx, ptr: b.ptr, mutable: true };
            Some((t, q))
        },
        None => {
            let (w, q) = word_at(text, here);
            if w.len() == 0 {
                None
            } else {
                match AliasType::find(&ctx.aliases, &w) {
                    Some(id) => {
                        proof {
                            crate::ty::lemma_alias_find_bounds(
                                aliases_view(ctx.aliases@),
                                w@,
                            );
                        }
                        Some((id, q))
                    },
                    None => None,
                }
            }
        },
    };
    let (base_ty, start2) = match base {
        Some(p) => p,
        None => {
            return None;
        },
    };
    let mut here2 = start2;
    assert(0 <= base_ty@.idx < 12);
    let mut levels: Vec<bool> = Vec::new();
    loop
        invariant
            here2 <= text@.len(),
            pos <= here2,
            0 <= base_ty@.idx < 12,
        decreases text@.len() - here2,
    {
        let q = ws(text, here2);
        if q < text.len() && text[q] == '*' {
            let q2 = ws(text, q + 1);
            let (cw, q3) = word_at(text, q2);
            if word_is(&cw, "const") {
                levels.push(false);
                here2 = q3;
            } else {
                levels.push(true);
                here2 = q + 1;
            }
        } else {
            break ;
        }
    }
    let here3 = ws(text, here2);
    let ptr = BitPtrIter::append_many(bits_clone(&base_ty.ptr), levels);
    let t = TypeID { idx: base_ty.idx, ptr, mutable: base_ty.mutable && mutable };
    Some((t, here3))
}

/// Reads a variable name: an identifier that is not a type keyword.
fn parse_var(text: &Vec<char>, pos: usize) -> (r: Option<(Vec<char>, usize)>)
    requires
        pos <= text@.len(),
    ensures
        match r {
            Some(p) => pos < p.1 <= text@.len(),
            None => true,
        },
{
    let (w, q) = word_at(text, pos);
    if w.len() == 0 {
        return None;
    }
    if is_type_word(&w) {
        return None;
    }
    Some((w, q))
}


/// Reads a numeric literal: a binary, octal or hexadecimal form with its
/// radix prefix, or a decimal form with an optional point, each with an
/// optional width suffix that rewrites to the emitted suffix.
fn parse_num_lit(text: &Vec<char>, pos: usize) -> (r: Result<(Vec<char>, usize), CError>)
    requires
        pos < text@.len(),
    ensures
        match r {
            Ok(p) => pos < p.1 <= text@.len(),
            Err(_) => true,
        },
{
    let n = text.len();
    let mut out: Vec<char> = Vec::new();
    let mut i = pos;
    let c0 = text[i];
    if !is_digit(c0) {
        return Err(CError::Syntax);
    }
    let radix: u8 = if c0 == '0' && i + 1 < n && (text[i + 1] == 'b' || text[i + 1] == 'o'
        || text[i + 1] == 'x') {
        let r: u8 = if text[i + 1] == 'b' {
            2
        } else if text[i + 1] == 'o' {
            8
        } else {
            16
        };
        out.push(text[i]);
        out.push(text[i + 1]);
        i = i + 2;
        r
    } else {
        10
    };
    let ghost dstart = i as int;
    let mut saw = false;
    #[verifier::loop_isolation(false)]
    while i < text.len() && digit_in_radix(text[i], radix)
        invariant
            pos <= i <= text@.len(),
            dstart <= i,
            saw == (i > dstart),
        decreases text@.len() - i,
    {
        out.push(text[i]);
        i = i + 1;
        saw = true;
    }
    if radix != 10 && !saw {
        return Err(CError::Syntax);
    }
    if radix == 10 {
        assert(digit_in_radix_holds(text@[pos as int]));
        assert(i > pos);
    }
    if radix == 10 {
        if i < text.len() && text[i] == '.' {
            out.push('.');
            i = i + 1;
            while i < text.len() && is_digit(text[i])
                invariant
                    pos <= i <= text@.len(),
                decreases text@.len() - i,
            {
                out.push(text[i]);
                i = i + 1;
            }
        }
    }
    if i < text.len() && (text[i] == 'l' || text[i] == 'L') {
        if i + 1 < text.len() && (text[i + 1] == 'l' || text[i + 1] == 'L') {
            i = i + 2;
        } else {
            i = i + 1;
        }
        push_str_chars(&mut out, "i64");
    } else if i < text.len() && (text[i] == 'u' || text[i] == 'U') {
        i = i + 1;
        push_str_chars(&mut out, "u64");
    }
    Ok((out, i))
}

/// A decimal digit, as the radix check sees one.
spec fn digit_in_radix_holds(c: char) -> bool {
    crate::text::spec_is_digit(c)
}

/// Whether a character is a digit of the given radix.
fn digit_in_radix(c: char, radix: u8) -> (r: bool)
    ensures
        radix == 10 ==> r == crate::text::spec_is_digit(c),
{
    if radix == 2 {
        c == '0' || c == '1'
    } else if radix == 8 {
        '0' <= c && c <= '7'
    } else if radix == 16 {
        is_digit(c) || ('a' <= c && c <= 'f') || ('A' <= c && c <= 'F')
    } else {
        is_digit(c)
    }
}

/// Reads a C string literal body after its opening quote: `\"` stands for
/// a quote; a plain (non-wide) literal rejects characters outside ASCII;
/// the C terminator is appended to the value.
fn read_c_string(text: &Vec<char>, pos: usize, plain: bool) -> (r: Result<(Vec<char>, usize), CError>)
    requires
        pos <= text@.len(),
    ensures
        match r {
            Ok(p) => pos < p.1 <= text@.len(),
            Err(_) => true,
        },
{
    if pos >= text.len() || text[pos] != '"' {
        return Err(CError::Syntax);
    }
    let mut out: Vec<char> = Vec::new();
    let mut i = pos + 1;
    while i < text.len() && text[i] != '"'
        invariant
            pos < i <= text@.len(),
        decreases text@.len() - i,
    {
        if text[i] == '\\' && i + 1 < text.len() && text[i + 1] == '"' {
            out.push('"');
            i = i + 2;
        } else {
            let c = text[i];
            let code_point = c as u32;
            if plain && code_point >= 128 {
                return Err(CError::NonAsciiString);
            }
            out.push(c);
            i = i + 1;
        }
    }
    if i >= text.len() {
        return Err(CError::Syntax);
    }
    out.push('\0');
    Ok((out, i + 1))
}

/// The type of a C string literal: a pointer to the character type.
fn string_ty() -> (r: TypeID)
    ensures
        r@.idx == 3,
        r@.ptr.len() == 1,
        r@.mutable == false,
{
    TypeID { idx: 3, ptr: BitPtrIter::append(bits_new(), false), mutable: false }
}

/// The standing guarantees an expression parser gives: position bounds,
/// a bounded result type, and the context still well formed with the
/// same shape apart from the active function's record.
pub open spec fn parse_keeps(c0: Ctx, c1: Ctx) -> bool {
    &&& ctx_wf(c1)
    &&& c1.types@ == c0.types@
    &&& c1.ops@ == c0.ops@
    &&& c1.aliases@ == c0.aliases@
    &&& c1.fns@.len() == c0.fns@.len()
    &&& c1.builtins@ == c0.builtins@
}

/// The signature a call resolves to: the emitted symbol, the parameter
/// types, and the return type.
struct CallSig {
    sym: Vec<char>,
    params: Vec<TypeID>,
    ret: TypeID,
}

/// A signature whose types stay within the registry.
spec fn sig_wf(s: CallSig) -> bool {
    &&& tid_bounded(s.ret@)
    &&& forall|i: int| 0 <= i < s.params@.len() ==> tid_bounded((#[trigger] s.params@[i])@)
}

/// The first recorded function with the given name, as a call signature.
fn find_user_sig(ctx: &Ctx, name: &Vec<char>) -> (r: Option<CallSig>)
    requires
        ctx_wf(*ctx),
    ensures
        match r {
            Some(s) => sig_wf(s),
            None => true,
        },
{
    let mut i: usize = 0;
    while i < ctx.fns.len()
        invariant
            ctx_wf(*ctx),
        decreases ctx.fns@.len() - i,
    {
        if chars_eq(&ctx.fns[i].name, name) {
            assert(fn_wf(ctx.fns@[i as int]@));
            let nargs = if ctx.fns[i].args <= ctx.fns[i].lets.len() {
                ctx.fns[i].args
            } else {
                ctx.fns[i].lets.len()
            };
            let mut params: Vec<TypeID> = Vec::new();
            let mut k: usize = 0;
            while k < nargs
                invariant
                    ctx_wf(*ctx),
                    i < ctx.fns@.len(),
                    nargs <= ctx.fns@[i as int].lets@.len(),
                    forall|j: int| 0 <= j < params@.len() ==> tid_bounded((#[trigger] params@[j])@),
                decreases nargs - k,
            {
                proof {
                    assert(fn_wf(ctx.fns@[i as int]@));
                    assert(let_wf(lets_view(ctx.fns@[i as int].lets@)[k as int]));
                    assert(lets_view(ctx.fns@[i as int].lets@)[k as int]
                        == ctx.fns@[i as int].lets@[k as int]@);
                }
                params.push(ctx.fns[i].lets[k].ty.clone());
                k = k + 1;
            }
            proof {
                assert(fn_wf(ctx.fns@[i as int]@));
            }
            let s = CallSig {
                sym: ctx.fns[i].name.clone(),
                params,
                ret: ctx.fns[i].ret.clone(),
            };
            return Some(s);
        }
        i = i + 1;
    }
    None
}

/// The first runtime-library signature with the given name.
fn find_builtin_sig(ctx: &Ctx, name: &Vec<char>) -> (r: Option<CallSig>)
    requires
        ctx_wf(*ctx),
    ensures
        match r {
            Some(s) => sig_wf(s),
            None => true,
        },
{
    let mut b: usize = 0;
    while b < ctx.builtins.len()
        invariant
            ctx_wf(*ctx),
        decreases ctx.builtins@.len() - b,
    {
        if chars_eq(&ctx.builtins[b].name, name) {
            assert(builtin_fn_wf(&ctx.builtins@[b as int]));
            let mut params: Vec<TypeID> = Vec::new();
            let mut k: usize = 0;
            let n = ctx.builtins[b].args.len();
            while k < n
                invariant
                    ctx_wf(*ctx),
                    b < ctx.builtins@.len(),
                    n == ctx.builtins@[b as int].args@.len(),
                    forall|j: int| 0 <= j < params@.len() ==> tid_bounded((#[trigger] params@[j])@),
                decreases n - k,
            {
                proof {
                    assert(builtin_fn_wf(&ctx.builtins@[b as int]));
                    assert(tid_bounded((ctx.builtins@[b as int].args@[k as int])@));
                }
                params.push(ctx.builtins[b].args[k].clone());
                k = k + 1;
            }
            let s = CallSig {
                sym: ctx.builtins[b].real_name.clone(),
                params,
                ret: ctx.builtins[b].ret.clone(),
            };
            return Some(s);
        }
        b = b + 1;
    }
    None
}

/// Resolves a call: the callee name is looked up first among recorded
/// functions, then among runtime-library signatures; the argument count
/// must match; each argument converts to its parameter's declared type;
/// the emitted call applies the resolved symbol to the joined arguments.
fn resolve_call(ctx: &Ctx, name: &Vec<char>, args: Vec<Expr>) -> (r: Result<Expr, CError>)
    requires
        ctx_wf(*ctx),
        forall|i: int| 0 <= i < args@.len() ==> tid_bounded((#[trigger] args@[i])@.ty),
    ensures
        match r {
            Ok(e) => tid_bounded(e@.ty),
            Err(_) => true,
        },
{
    let sig = match find_user_sig(ctx, name) {
        Some(s) => s,
        None => match find_builtin_sig(ctx, name) {
            Some(s) => s,
            None => {
                return Err(CError::UnknownFunction);
            },
        },
    };
    if args.len() > sig.params.len() {
        return Err(CError::TooManyArgs);
    }
    if args.len() < sig.params.len() {
        return Err(CError::LackOfArgs);
    }
    let mut out = sig.sym;
    out.push('(');
    let mut k: usize = 0;
    while k < args.len()
        invariant
            ctx_wf(*ctx),
            sig_wf_params_only(sig.params@),
            args@.len() == sig.params@.len(),
            forall|j: int| 0 <= j < args@.len() ==> tid_bounded((#[trigger] args@[j])@.ty),
        decreases args@.len() - k,
    {
        if k > 0 {
            out.push(',');
            out.push(' ');
        }
        let converted = match BuiltinType::convert(
            &ctx.types,
            &args[k].ty,
            &sig.params[k],
            &args[k].name,
        ) {
            Ok(v) => v,
            Err(e) => {
                return Err(e);
            },
        };
        push_all(&mut out, &converted);
        k = k + 1;
    }
    out.push(')');
    Ok(Expr { name: out, ty: sig.ret })
}

/// Boundedness of a parameter list alone.
spec fn sig_wf_params_only(params: Seq<TypeID>) -> bool {
    forall|i: int| 0 <= i < params.len() ==> tid_bounded((#[trigger] params[i])@)
}


/// The active function stays well formed through a unary lowering: flag
/// demotion keeps the bindings, and mutability promotion keeps the types.
proof fn lemma_promote_wf(f: FunctionV, name: Seq<char>)
    requires
        fn_wf(f),
    ensures
        fn_wf(crate::op::promote(f, name)),
{
    crate::fns::lemma_let_find_bounds(f.lets, name);
    match crate::fns::let_find(f.lets, name) {
        Some(k) => {
            let g = crate::op::promote(f, name);
            assert(g.lets.len() == f.lets.len());
            assert forall|i: int| 0 <= i < g.lets.len() implies let_wf(#[trigger] g.lets[i]) by {
                if i != k {
                    assert(g.lets[i] == f.lets[i]);
                }
            }
        },
        None => {},
    }
}

/// Resolves one unary operator and re-establishes the context's shape.
fn apply_unop(ctx: &mut Ctx, x: Expr, sym: &str) -> (r: Result<Expr, CError>)
    requires
        ctx_wf(*old(ctx)),
        old(ctx).fns@.len() > 0,
        tid_bounded(x@.ty),
    ensures
        match r {
            Ok(e) => tid_bounded(e@.ty) && parse_keeps(*old(ctx), *final(ctx)),
            Err(_) => true,
        },
{
    proof {
        crate::op::lemma_standard_ops_wf();
        assert(reg_view(ctx.types@).len() == 12);
    }
    let ghost f0 = fns_view(ctx.fns@).last();
    let e = match Unop::union(&ctx.types, &ctx.ops, &mut ctx.fns, x, sym) {
        Ok(e) => e,
        Err(e) => {
            return Err(e);
        },
    };
    proof {
        let tbl = ops_view(ctx.ops@);
        let f1 = fns_view(ctx.fns@).last();
        assert(fn_wf(f0));
        match crate::op::spec_unop(reg_view(ctx.types@), tbl, f0, x@, sym@) {
            Ok(p) => {
                assert(f1 == p.1);
                lemma_promote_wf(f0, spec_unop_conv_name(reg_view(ctx.types@), tbl, f0, x@, sym@));
                assert(fn_wf(f1)) by {
                    lemma_unop_result_fn_wf(reg_view(ctx.types@), tbl, f0, x@, sym@);
                }
                assert(tid_bounded(e@.ty)) by {
                    lemma_unop_result_ty(reg_view(ctx.types@), tbl, f0, x@, sym@);
                }
            },
            Err(_) => {
                assert(false);
            },
        }
        assert forall|i: int| 0 <= i < ctx.fns@.len() implies fn_wf((#[trigger] ctx.fns@[i])@) by {
            if i < ctx.fns@.len() - 1 {
                assert(fns_view(ctx.fns@).take(ctx.fns@.len() - 1)[i] == fns_view(ctx.fns@)[i]);
                assert(fns_view(old(ctx).fns@).take(ctx.fns@.len() - 1)[i] == fns_view(
                    old(ctx).fns@,
                )[i]);
            } else {
                assert(ctx.fns@[i]@ == fns_view(ctx.fns@).last());
            }
        }
    }
    Ok(e)
}

/// The name the unary resolver hands to mutability promotion: the operand
/// text after its predicate-driven coercion.
pub open spec fn spec_unop_conv_name(
    types: Seq<crate::ty::FullTypeV>,
    table: Seq<crate::op::OpV>,
    active: FunctionV,
    x: ExprV,
    sym: Seq<char>,
) -> Seq<char> {
    match crate::op::op_find(table, sym, 1) {
        Some(oi) => {
            match crate::op::spec_accepts(table[oi].matching, x.ty) {
                Ok(acc) => if !acc {
                    match crate::op::spec_expr_convert(types, x, table[oi].default) {
                        Ok(x1) => x1.name,
                        Err(_) => x.name,
                    }
                } else {
                    x.name
                },
                Err(_) => x.name,
            }
        },
        None => x.name,
    }
}

/// On success, unary resolution leaves the active function well formed.
proof fn lemma_unop_result_fn_wf(
    types: Seq<crate::ty::FullTypeV>,
    table: Seq<crate::op::OpV>,
    active: FunctionV,
    x: ExprV,
    sym: Seq<char>,
)
    requires
        fn_wf(active),
        crate::op::spec_unop(types, table, active, x, sym) is Ok,
    ensures
        fn_wf(crate::op::spec_unop(types, table, active, x, sym)->Ok_0.1),
{
    let r = crate::op::spec_unop(types, table, active, x, sym)->Ok_0;
    match crate::op::op_find(table, sym, 1) {
        Some(oi) => {
            lemma_promote_wf(active, spec_unop_conv_name(types, table, active, x, sym));
        },
        None => {},
    }
}

/// On success with a well-formed table, the resolved unary expression's
/// type stays within the registry or the sentinel.
proof fn lemma_unop_result_ty(
    types: Seq<crate::ty::FullTypeV>,
    table: Seq<crate::op::OpV>,
    active: FunctionV,
    x: ExprV,
    sym: Seq<char>,
)
    requires
        crate::op::ops_wf(table),
        tid_bounded(x.ty),
        crate::op::spec_unop(types, table, active, x, sym) is Ok,
    ensures
        tid_bounded(crate::op::spec_unop(types, table, active, x, sym)->Ok_0.0.ty),
{
    crate::op::lemma_op_find_bounds(table, sym, 1);
    match crate::op::op_find(table, sym, 1) {
        Some(oi) => {
            assert(0 <= table[oi].default.idx <= 12);
        },
        None => {},
    }
}

/// Reads one primary expression: a call, a numeric literal, a string, the
/// enclosing function's name, or a variable.
fn parse_e0(ctx: &mut Ctx, text: &Vec<char>, pos: usize) -> (r: Result<(Expr, usize), CError>)
    requires
        ctx_wf(*old(ctx)),
        pos <= text@.len(),
    ensures
        match r {
            Ok(p) => pos < p.1 <= text@.len() && tid_bounded(p.0@.ty) && parse_keeps(
                *old(ctx),
                *final(ctx),
            ),
            Err(_) => true,
        },
    decreases text@.len() - pos, 1int,
{
    let n = text.len();
    if pos >= n {
        return Err(CError::Syntax);
    }
    let c = text[pos];
    if is_digit(c) {
        let (lit, q) = match parse_num_lit(text, pos) {
            Ok(p) => p,
            Err(e) => {
                return Err(e);
            },
        };
        let e = Operand::parse_to_num(lit);
        return Ok((e, q));
    }
    if c == '"' {
        let (content, q) = match read_c_string(text, pos, true) {
            Ok(p) => p,
            Err(e) => {
                return Err(e);
            },
        };
        let mut name: Vec<char> = Vec::new();
        name.push('"');
        push_all(&mut name, &content);
        name.push('"');
        return Ok((Expr { name, ty: string_ty() }, q));
    }
    if c == 'L' && pos + 1 < n && text[pos + 1] == '"' {
        let (content, q) = match read_c_string(text, pos + 1, false) {
            Ok(p) => p,
            Err(e) => {
                return Err(e);
            },
        };
        let mut name: Vec<char> = Vec::new();
        name.push('"');
        push_all(&mut name, &content);
        name.push('"');
        return Ok((Expr { name, ty: string_ty() }, q));
    }
    if is_letter(c) {
        let (word, q) = word_at(text, pos);
        let q2 = ws(text, q);
        if q2 < n && text[q2] == '(' {
            let mut args: Vec<Expr> = Vec::new();
            let mut had_first = false;
            let mut cur = ws(text, q2 + 1);
            if cur < n && text[cur] != ')' && text[cur] != ',' {
                let (a0, p0) = match parse_expr(ctx, text, cur) {
                    Ok(p) => p,
                    Err(e) => {
                        return Err(e);
                    },
                };
                args.push(a0);
                had_first = true;
                cur = ws(text, p0);
            }
            while cur < n && text[cur] == ','
                invariant
                    parse_keeps(*old(ctx), *ctx),
                    pos < cur <= text@.len(),
                    n == text@.len(),
                    forall|i: int| 0 <= i < args@.len() ==> tid_bounded((#[trigger] args@[i])@.ty),
                decreases text@.len() - cur,
            {
                let q3 = ws(text, cur + 1);
                if q3 < n && text[q3] == ')' {
                    cur = q3;
                } else {
                    let (a, p) = match parse_expr(ctx, text, q3) {
                        Ok(p) => p,
                        Err(e) => {
                            return Err(e);
                        },
                    };
                    args.push(a);
                    cur = ws(text, p);
                }
            }
            if cur >= n || text[cur] != ')' {
                return Err(CError::Syntax);
            }
            if !had_first && args.len() > 0 {
                return Err(CError::UnexpectedComma);
            }
            let e = match resolve_call(ctx, &word, args) {
                Ok(e) => e,
                Err(e) => {
                    return Err(e);
                },
            };
            return Ok((e, cur + 1));
        }
        if word_is(&word, "__func__") {
            if ctx.fns.len() == 0 {
                return Err(CError::Syntax);
            }
            let f = Function::get(&ctx.fns);
            let mut name: Vec<char> = Vec::new();
            name.push('"');
            push_all(&mut name, &f.name);
            name.push('\0');
            name.push('"');
            return Ok((Expr { name, ty: string_ty() }, q));
        }
        if ctx.fns.len() == 0 {
            return Err(CError::UnknownVariable);
        }
        let active = Function::get(&ctx.fns);
        let e = match Operand::parse_to_var(active, &word) {
            Ok(e) => e,
            Err(e) => {
                return Err(e);
            },
        };
        proof {
            crate::fns::lemma_let_find_bounds(fns_view(ctx.fns@).last().lets, word@);
            assert(fn_wf(fns_view(ctx.fns@).last()));
        }
        return Ok((e, q));
    }
    Err(CError::Syntax)
}

/// Reads one unary-level expression: a parenthesised group, a `sizeof`
/// query, a prefix operator, or a primary with an optional step suffix.
fn parse_e1(ctx: &mut Ctx, text: &Vec<char>, pos: usize) -> (r: Result<(Expr, usize), CError>)
    requires
        ctx_wf(*old(ctx)),
        pos <= text@.len(),
    ensures
        match r {
            Ok(p) => pos < p.1 <= text@.len() && tid_bounded(p.0@.ty) && parse_keeps(
                *old(ctx),
                *final(ctx),
            ),
            Err(_) => true,
        },
    decreases text@.len() - pos, 3int,
{
    let n = text.len();
    if pos >= n {
        return Err(CError::Syntax);
    }
    let c = text[pos];
    if c == '(' {
        let q = ws(text, pos + 1);
        let (e, p) = match parse_expr(ctx, text, q) {
            Ok(p) => p,
            Err(e) => {
                return Err(e);
            },
        };
        let q2 = ws(text, p);
        if q2 >= n || text[q2] != ')' {
            return Err(CError::Syntax);
        }
        let wrapped = parentify(&e.name);
        return Ok((Expr::new(wrapped, &e.ty), q2 + 1));
    }
    if c == '+' && pos + 1 < n && text[pos + 1] == '+' {
        let q = ws(text, pos + 2);
        let (e, p) = match parse_e0(ctx, text, q) {
            Ok(p) => p,
            Err(e) => {
                return Err(e);
            },
        };
        if ctx.fns.len() == 0 {
            return Err(CError::Syntax);
        }
        let u = match apply_unop(ctx, e, "++b") {
            Ok(u) => u,
            Err(e) => {
                return Err(e);
            },
        };
        return Ok((u, p));
    }
    if c == '-' && pos + 1 < n && text[pos + 1] == '-' {
        let q = ws(text, pos + 2);
        let (e, p) = match parse_e0(ctx, text, q) {
            Ok(p) => p,
            Err(e) => {
                return Err(e);
            },
        };
        if ctx.fns.len() == 0 {
            return Err(CError::Syntax);
        }
        let u = match apply_unop(ctx, e, "--b") {
            Ok(u) => u,
            Err(e) => {
                return Err(e);
            },
        };
        return Ok((u, p));
    }
    if c == '+' || c == '-' || c == '*' || c == '!' || c == '~' || c == '&' {
        let q = ws(text, pos + 1);
        let (e, p) = if c == '&' {
            match parse_e0(ctx, text, q) {
                Ok(p) => p,
                Err(e) => {
                    return Err(e);
                },
            }
        } else {
            match parse_e1(ctx, text, q) {
                Ok(p) => p,
                Err(e) => {
                    return Err(e);
                },
            }
        };
        if ctx.fns.len() == 0 {
            return Err(CError::Syntax);
        }
        let sym: &str = if c == '+' {
            "+"
        } else if c == '-' {
            "-"
        } else if c == '*' {
            "*"
        } else if c == '!' {
            "!"
        } else if c == '~' {
            "~"
        } else {
            "&"
        };
        let u = match apply_unop(ctx, e, sym) {
            Ok(u) => u,
            Err(e) => {
                return Err(e);
            },
        };
        return Ok((u, p));
    }
    if is_letter(c) {
        let (word, q) = word_at(text, pos);
        if word_is(&word, "sizeof") {
            let q2 = ws(text, q);
            if q2 < n && text[q2] == '(' {
                let q3 = ws(text, q2 + 1);
                let (t, p) = match parse_ty(ctx, text, q3) {
                    Some(p) => p,
                    None => {
                        return Err(CError::Syntax);
                    },
                };
                if p >= n || text[p] != ')' {
                    return Err(CError::Syntax);
                }
                let e = sizeof_expr(ctx, &t);
                return Ok((e, p + 1));
            }
            if q2 > q {
                let (t, p) = match parse_ty(ctx, text, q2) {
                    Some(p) => p,
                    None => {
                        return Err(CError::Syntax);
                    },
                };
                let e = sizeof_expr(ctx, &t);
                return Ok((e, p));
            }
            return Err(CError::Syntax);
        }
    }
    let (e, p) = match parse_e0(ctx, text, pos) {
        Ok(p) => p,
        Err(e) => {
            return Err(e);
        },
    };
    let q = ws(text, p);
    if q < n && text[q] == '+' && q + 1 < n && text[q + 1] == '+' {
        if ctx.fns.len() == 0 {
            return Err(CError::Syntax);
        }
        let u = match apply_unop(ctx, e, "++a") {
            Ok(u) => u,
            Err(e) => {
                return Err(e);
            },
        };
        return Ok((u, q + 2));
    }
    if q < n && text[q] == '-' && q + 1 < n && text[q + 1] == '-' {
        if ctx.fns.len() == 0 {
            return Err(CError::Syntax);
        }
        let u = match apply_unop(ctx, e, "--a") {
            Ok(u) => u,
            Err(e) => {
                return Err(e);
            },
        };
        return Ok((u, q + 2));
    }
    Ok((e, p))
}

/// The emitted `sizeof` query for a type.
fn sizeof_expr(ctx: &Ctx, t: &TypeID) -> (r: Expr)
    requires
        ctx_wf(*ctx),
        0 <= t@.idx < 12,
    ensures
        tid_bounded(r@.ty),
{
    let mut name: Vec<char> = Vec::new();
    push_str_chars(&mut name, "::qas::builtin::sizeof::<");
    proof {
        assert(crate::ty::tid_live(t@, reg_view(ctx.types@)));
    }
    let rn = FullType::real_name(&ctx.types, t);
    push_all(&mut name, &rn);
    push_str_chars(&mut name, ">()");
    let u = BuiltinType::usized();
    let ty = u.as_id();
    Expr { name, ty }
}


/// The operator symbols of one precedence level, highest first; longest
/// symbols match first, and a symbol never steals the prefix of a longer
/// one from a lower level.
fn level_sym(text: &Vec<char>, q: usize, lvl: u8) -> (r: Option<(&'static str, usize)>)
    requires
        q <= text@.len(),
    ensures
        match r {
            Some(p) => 1 <= p.1 && q + p.1 <= text@.len(),
            None => true,
        },
{
    let n = text.len();
    if q >= n {
        return None;
    }
    let c = text[q];
    let c2: char = if q + 1 < n {
        text[q + 1]
    } else {
        ' '
    };
    if lvl == 1 {
        if c == '/' {
            return Some(("/", 1));
        }
        if c == '*' {
            return Some(("*", 1));
        }
        if c == '%' {
            return Some(("%", 1));
        }
        return None;
    }
    if lvl == 2 {
        if c == '-' {
            return Some(("-", 1));
        }
        if c == '+' {
            return Some(("+", 1));
        }
        return None;
    }
    if lvl == 3 {
        if c == '<' && c2 == '<' && q + 1 < n {
            return Some(("<<", 2));
        }
        if c == '>' && c2 == '>' && q + 1 < n {
            return Some((">>", 2));
        }
        return None;
    }
    if lvl == 4 {
        if c == '<' && c2 == '=' && q + 1 < n {
            return Some(("<=", 2));
        }
        if c == '>' && c2 == '=' && q + 1 < n {
            return Some((">=", 2));
        }
        if c == '<' && c2 != '<' {
            return Some(("<", 1));
        }
        if c == '>' && c2 != '>' {
            return Some((">", 1));
        }
        return None;
    }
    if lvl == 5 {
        if c == '=' && c2 == '=' && q + 1 < n {
            return Some(("==", 2));
        }
        if c == '!' && c2 == '=' && q + 1 < n {
            return Some(("!=", 2));
        }
        return None;
    }
    if lvl == 6 {
        if c == '&' && c2 != '&' {
            return Some(("&", 1));
        }
        return None;
    }
    if lvl == 7 {
        if c == '^' {
            return Some(("^", 1));
        }
        return None;
    }
    if lvl == 8 {
        if c == '|' && c2 != '|' {
            return Some(("|", 1));
        }
        return None;
    }
    if lvl == 9 {
        if c == '&' && c2 == '&' && q + 1 < n {
            return Some(("&&", 2));
        }
        return None;
    }
    if lvl == 10 {
        if c == '|' && c2 == '|' && q + 1 < n {
            return Some(("||", 2));
        }
        return None;
    }
    None
}

/// Reads one expression at a binary precedence level: the next level
/// down, then any number of this level's operators, folded left.
fn parse_binlevel(ctx: &mut Ctx, text: &Vec<char>, pos: usize, lvl: u8) -> (r: Result<
    (Expr, usize),
    CError,
>)
    requires
        ctx_wf(*old(ctx)),
        pos <= text@.len(),
        lvl <= 10,
    ensures
        match r {
            Ok(p) => pos < p.1 <= text@.len() && tid_bounded(p.0@.ty) && parse_keeps(
                *old(ctx),
                *final(ctx),
            ),
            Err(_) => true,
        },
    decreases text@.len() - pos, 4int + lvl,
{
    if lvl == 0 {
        return parse_e1(ctx, text, pos);
    }
    let n = text.len();
    let first = match parse_binlevel(ctx, text, pos, lvl - 1) {
        Ok(p) => p,
        Err(e) => {
            return Err(e);
        },
    };
    let x = first.0;
    let mut cur = first.1;
    let mut pending: Vec<Operand> = Vec::new();
    loop
        invariant
            parse_keeps(*old(ctx), *ctx),
            pos < cur <= text@.len(),
            n == text@.len(),
            1 <= lvl <= 10,
            tid_bounded(x@.ty),
            forall|i: int|
                0 <= i < pending@.len() ==> {
                    &&& 0 <= (#[trigger] crate::op::operands_view(pending@)[i]).op < ctx.ops@.len()
                    &&& 0 <= crate::op::operands_view(pending@)[i].expr.ty.idx <= 12
                },
        decreases text@.len() - cur,
    {
        let q = ws(text, cur);
        match level_sym(text, q, lvl) {
            None => {
                proof {
                    crate::op::lemma_standard_ops_wf();
                    assert(reg_view(ctx.types@).len() == 12);
                }
                let e = match Binop::union(&ctx.types, &ctx.ops, x, pending) {
                    Ok(e) => e,
                    Err(e) => {
                        return Err(e);
                    },
                };
                return Ok((e, cur));
            },
            Some((sym, sl)) => {
                let q2 = ws(text, q + sl);
                let (y, p) = match parse_binlevel(ctx, text, q2, lvl - 1) {
                    Ok(p) => p,
                    Err(e) => {
                        return Err(e);
                    },
                };
                let symv = str_to_chars(sym);
                let o = match Operand::new(&ctx.ops, &symv, y, 2) {
                    Ok(o) => o,
                    Err(e) => {
                        return Err(e);
                    },
                };
                let ghost before = crate::op::operands_view(pending@);
                pending.push(o);
                proof {
                    assert(crate::op::operands_view(pending@) =~= before.push(o@));
                }
                cur = p;
            },
        }
    }
}

/// The if/else text a ternary lowers to.
pub open spec fn ternary_text(
    cond: Seq<char>,
    a: Seq<char>,
    b: Seq<char>,
    tabs: Seq<char>,
) -> Seq<char> {
    "if "@ + cond + " {\n"@ + tabs + "\t"@ + a + "\n"@ + tabs + "} else {\n\t"@ + tabs + b
        + "\n\t}"@
}

/// What ternary resolution yields: the weaker branch converts to the
/// dominant branch's type, the condition converts to the boolean type,
/// and the arms stand in an if/else expression typed as the dominant
/// branch.
pub open spec fn spec_ternary(
    types: Seq<crate::ty::FullTypeV>,
    tabs: Seq<char>,
    cond: ExprV,
    s1: ExprV,
    s2: ExprV,
) -> Result<ExprV, CError> {
    let branches = match crate::builtin_ty::spec_dominant(types, s1.ty, s2.ty) {
        Dominant::Similar => Ok((s1, s2)),
        Dominant::A => match crate::op::spec_expr_convert(types, s2, s1.ty) {
            Ok(s2c) => Ok((s1, s2c)),
            Err(e) => Err(e),
        },
        Dominant::B => match crate::op::spec_expr_convert(types, s1, s2.ty) {
            Ok(s1c) => Ok((s1c, s2)),
            Err(e) => Err(e),
        },
    };
    match branches {
        Err(e) => Err(e),
        Ok(p) => match crate::builtin_ty::spec_convert(
            types,
            cond.ty,
            crate::op::bool_id(),
            cond.name,
        ) {
            Err(e) => Err(e),
            Ok(cv) => Ok(
                ExprV {
                    name: ternary_text(
                        crate::text::spec_deparentify(cv),
                        p.0.name,
                        p.1.name,
                        tabs,
                    ),
                    ty: p.0.ty,
                },
            ),
        },
    }
}

/// Ternary branch unification: with branch types of differing dominance
/// the result's type is always the dominant branch's, and the weaker
/// branch's emitted text is the conversion engine's rewrite of it toward
/// that type.
pub proof fn lemma_ternary_unifies(
    types: Seq<crate::ty::FullTypeV>,
    tabs: Seq<char>,
    cond: ExprV,
    s1: ExprV,
    s2: ExprV,
)
    requires
        spec_ternary(types, tabs, cond, s1, s2) is Ok,
    ensures
        crate::builtin_ty::spec_dominant(types, s1.ty, s2.ty) == Dominant::A ==> {
            let r = spec_ternary(types, tabs, cond, s1, s2)->Ok_0;
            &&& r.ty == s1.ty
            &&& r.name == ternary_text(
                crate::text::spec_deparentify(
                    crate::builtin_ty::spec_convert(
                        types,
                        cond.ty,
                        crate::op::bool_id(),
                        cond.name,
                    )->Ok_0,
                ),
                s1.name,
                crate::op::spec_expr_convert(types, s2, s1.ty)->Ok_0.name,
                tabs,
            )
        },
        crate::builtin_ty::spec_dominant(types, s1.ty, s2.ty) == Dominant::B ==> {
            let r = spec_ternary(types, tabs, cond, s1, s2)->Ok_0;
            &&& r.ty == s2.ty
            &&& r.name == ternary_text(
                crate::text::spec_deparentify(
                    crate::builtin_ty::spec_convert(
                        types,
                        cond.ty,
                        crate::op::bool_id(),
                        cond.name,
                    )->Ok_0,
                ),
                crate::op::spec_expr_convert(types, s1, s2.ty)->Ok_0.name,
                s2.name,
                tabs,
            )
        },
{
}

/// Joins a ternary: the weaker branch converts to the dominant branch's
/// type, the condition to the boolean type, and the pieces assemble into
/// an if/else expression.
fn ternary_join(
    types: &Vec<FullType>,
    fns: &Vec<Function>,
    cond: Expr,
    s1: Expr,
    s2: Expr,
) -> (r: Result<Expr, CError>)
    requires
        reg_view(types@) == builtin_registry(),
        tid_bounded(cond@.ty),
        0 <= s1@.ty.idx < 12,
        0 <= s2@.ty.idx < 12,
    ensures
        match r {
            Ok(e) => spec_ternary(
                reg_view(types@),
                crate::fns::spec_tabs(fns@.len()),
                cond@,
                s1@,
                s2@,
            ) == Ok::<ExprV, CError>(e@) && tid_bounded(e@.ty),
            Err(e) => spec_ternary(
                reg_view(types@),
                crate::fns::spec_tabs(fns@.len()),
                cond@,
                s1@,
                s2@,
            ) == Err::<ExprV, CError>(e),
        },
{
    proof {
        assert(reg_view(types@).len() == 12);
    }
    let mut s1 = s1;
    let mut s2 = s2;
    match BuiltinType::dominant(types, &s1.ty, &s2.ty) {
        Dominant::Similar => {},
        Dominant::A => {
            let to = s1.ty.clone();
            match s2.convert(types, &to) {
                Ok(_) => {},
                Err(e) => {
                    return Err(e);
                },
            }
        },
        Dominant::B => {
            let to = s2.ty.clone();
            match s1.convert(types, &to) {
                Ok(_) => {},
                Err(e) => {
                    return Err(e);
                },
            }
        },
    }
    let bool_ty = BuiltinType::Bool.as_id();
    assert(bool_ty@ == crate::op::bool_id());
    let cv = match BuiltinType::convert(types, &cond.ty, &bool_ty, &cond.name) {
        Ok(v) => v,
        Err(e) => {
            return Err(e);
        },
    };
    let cflat = deparentify(&cv);
    let tabs = Tab::tabs(fns);
    let mut name: Vec<char> = Vec::new();
    push_str_chars(&mut name, "if ");
    push_all(&mut name, &cflat);
    push_str_chars(&mut name, " {\n");
    push_all(&mut name, &tabs);
    push_str_chars(&mut name, "\t");
    push_all(&mut name, &s1.name);
    push_str_chars(&mut name, "\n");
    push_all(&mut name, &tabs);
    push_str_chars(&mut name, "} else {\n\t");
    push_all(&mut name, &tabs);
    push_all(&mut name, &s2.name);
    push_str_chars(&mut name, "\n\t}");
    proof {
        assert(name@ =~= ternary_text(
            crate::text::spec_deparentify(cv@),
            s1@.name,
            s2@.name,
            crate::fns::spec_tabs(fns@.len()),
        ));
    }
    let ty = s1.ty.clone();
    Ok(Expr { name, ty })
}

/// Reads one full expression: the binary levels, then an optional
/// right-associative ternary.
fn parse_expr(ctx: &mut Ctx, text: &Vec<char>, pos: usize) -> (r: Result<(Expr, usize), CError>)
    requires
        ctx_wf(*old(ctx)),
        pos <= text@.len(),
    ensures
        match r {
            Ok(p) => pos < p.1 <= text@.len() && tid_bounded(p.0@.ty) && parse_keeps(
                *old(ctx),
                *final(ctx),
            ),
            Err(_) => true,
        },
    decreases text@.len() - pos, 16int,
{
    let n = text.len();
    let (x0, p0) = match parse_binlevel(ctx, text, pos, 10) {
        Ok(p) => p,
        Err(e) => {
            return Err(e);
        },
    };
    let flat = deparentify(&x0.name);
    let x = Expr::new(flat, &x0.ty);
    let q = ws(text, p0);
    if q < n && text[q] == '?' {
        let q2 = ws(text, q + 1);
        let (s1, p1) = match parse_expr(ctx, text, q2) {
            Ok(p) => p,
            Err(e) => {
                return Err(e);
            },
        };
        let q3 = ws(text, p1);
        if q3 >= n || text[q3] != ':' {
            return Err(CError::Syntax);
        }
        let q4 = ws(text, q3 + 1);
        let (s2, p2) = match parse_expr(ctx, text, q4) {
            Ok(p) => p,
            Err(e) => {
                return Err(e);
            },
        };
        if s1.ty.idx >= 12 || s2.ty.idx >= 12 {
            return Err(CError::NotConvertible);
        }
        let e = match ternary_join(&ctx.types, &ctx.fns, x, s1, s2) {
            Ok(e) => e,
            Err(e) => {
                return Err(e);
            },
        };
        return Ok((e, p2));
    }
    Ok((x, p0))
}


/// Whether a word is reserved in the target language.
/// Relies on `check_keyword`'s `CheckKeyword::is_keyword` for `&str`: the
/// verdict depends on the word alone.
#[verifier::external_body]
fn is_reserved(word: &str) -> (r: bool)
    ensures
        r == reserved_word(word@),
{
    check_keyword::CheckKeyword::is_keyword(&word)
}

/// Reads the attribute tokens before a function header.
fn parse_attrs(text: &Vec<char>, pos: usize) -> (r: Result<(Vec<Vec<char>>, usize), CError>)
    requires
        pos <= text@.len(),
    ensures
        match r {
            Ok(p) => pos <= p.1 <= text@.len(),
            Err(_) => true,
        },
{
    let n = text.len();
    let mut attrs: Vec<Vec<char>> = Vec::new();
    let mut cur = pos;
    loop
        invariant
            pos <= cur <= text@.len(),
            n == text@.len(),
        decreases text@.len() - cur,
    {
        let (w, q) = word_at(text, cur);
        if w.len() == 0 {
            return Ok((attrs, cur));
        }
        if word_is(&w, "inline") {
            attrs.push(str_to_chars("inline"));
            cur = ws(text, q);
        } else if word_is(&w, "static") {
            attrs.push(str_to_chars("%P"));
            cur = ws(text, q);
        } else if word_is(&w, "__ATTR__") {
            let q2 = ws(text, q);
            if q2 >= n || q2 + 1 >= n || text[q2] != '(' || text[q2 + 1] != '(' {
                return Err(CError::Syntax);
            }
            let q3 = ws(text, q2 + 2);
            let mut token: Vec<char>;
            let mut after: usize;
            if q3 < n && text[q3] == '"' {
                let (content, q4) = match read_quoted(text, q3) {
                    Ok(p) => p,
                    Err(e) => {
                        return Err(e);
                    },
                };
                if word_is(&content, "noreturn") {
                    token = str_to_chars("%N");
                } else if word_is(&content, "safe") {
                    token = str_to_chars("%S");
                } else if word_is(&content, "unsafe") {
                    token = str_to_chars("%U");
                } else {
                    return Err(CError::Syntax);
                }
                after = q4;
            } else {
                let (rw, q4) = word_at(text, q3);
                if !word_is(&rw, "rust") {
                    return Err(CError::Syntax);
                }
                let q5 = ws(text, q4);
                if q5 >= n || text[q5] != '(' {
                    return Err(CError::Syntax);
                }
                let q6 = ws(text, q5 + 1);
                let (content, q7) = match read_quoted(text, q6) {
                    Ok(p) => p,
                    Err(e) => {
                        return Err(e);
                    },
                };
                let q8 = ws(text, q7);
                if q8 >= n || text[q8] != ')' {
                    return Err(CError::Syntax);
                }
                token = content;
                after = q8 + 1;
            }
            let q9 = ws(text, after);
            if q9 >= n || q9 + 1 >= n || text[q9] != ')' || text[q9 + 1] != ')' {
                return Err(CError::Syntax);
            }
            attrs.push(token);
            cur = ws(text, q9 + 2);
        } else {
            return Ok((attrs, cur));
        }
    }
}

/// Whether an attribute token list holds a given two-character marker.
fn attrs_have(attrs: &Vec<Vec<char>>, a: char, b: char) -> (r: bool)
    ensures
        r == crate::fns::has_attr(crate::fns::attrs_view(attrs@), seq![a, b]),
{
    let ghost av = crate::fns::attrs_view(attrs@);
    let mut i: usize = 0;
    while i < attrs.len()
        invariant
            av == crate::fns::attrs_view(attrs@),
            av.len() == attrs@.len(),
            0 <= i <= attrs@.len(),
            forall|j: int| 0 <= j < i ==> av[j] != seq![a, b],
        decreases attrs@.len() - i,
    {
        let t = &attrs[i];
        if t.len() == 2 {
            if t[0] == a && t[1] == b {
                assert(av[i as int] =~= seq![a, b]);
                return true;
            }
        }
        proof {
            if av[i as int] == seq![a, b] {
                assert(attrs@[i as int]@ =~= seq![a, b]);
                assert(false);
            }
        }
        i = i + 1;
    }
    false
}

/// Reads the parameter list after the opening parenthesis; hands back the
/// bindings and the position after the closing parenthesis.
fn parse_params(ctx: &Ctx, text: &Vec<char>, pos: usize) -> (r: Result<(Vec<Let>, usize), CError>)
    requires
        ctx_wf(*ctx),
        pos <= text@.len(),
    ensures
        match r {
            Ok(p) => {
                &&& pos <= p.1 <= text@.len()
                &&& forall|i: int| 0 <= i < p.0@.len() ==> let_wf((#[trigger] p.0@[i])@)
            },
            Err(_) => true,
        },
{
    let n = text.len();
    let mut lets: Vec<Let> = Vec::new();
    let mut had_first = false;
    let mut cur = ws(text, pos);
    match parse_ty(ctx, text, cur) {
        Some((t, q)) => {
            let (name, q2) = match parse_var(text, q) {
                Some(p) => p,
                None => {
                    return Err(CError::Syntax);
                },
            };
            lets.push(Let { name, mutable: false, ty: t });
            had_first = true;
            cur = ws(text, q2);
        },
        None => {},
    }
    loop
        invariant
            ctx_wf(*ctx),
            pos <= cur <= text@.len(),
            n == text@.len(),
            forall|i: int| 0 <= i < lets@.len() ==> let_wf((#[trigger] lets@[i])@),
        decreases text@.len() - cur,
    {
        if cur < n && text[cur] == ',' {
            let q = ws(text, cur + 1);
            match parse_ty(ctx, text, q) {
                Some((t, q2)) => {
                    let (name, q3) = match parse_var(text, q2) {
                        Some(p) => p,
                        None => {
                            return Err(CError::Syntax);
                        },
                    };
                    let tm = t.mutable();
                    lets.push(Let { name, mutable: false, ty: tm });
                    cur = ws(text, q3);
                },
                None => {
                    cur = q;
                    if cur >= n || text[cur] != ')' {
                        return Err(CError::Syntax);
                    }
                    if !had_first && lets.len() > 0 {
                        return Err(CError::UnexpectedComma);
                    }
                    return Ok((lets, cur + 1));
                },
            }
        } else {
            if cur >= n || text[cur] != ')' {
                return Err(CError::Syntax);
            }
            if !had_first && lets.len() > 0 {
                return Err(CError::UnexpectedComma);
            }
            return Ok((lets, cur + 1));
        }
    }
}

/// The aliases kept at the end of a function body stay bounded.
proof fn lemma_global_aliases_bounded(aliases: Seq<AliasV>)
    requires
        forall|i: int| 0 <= i < aliases.len() ==> 0 <= (#[trigger] aliases[i]).id.idx < 12,
    ensures
        forall|i: int|
            0 <= i < crate::ty::global_aliases(aliases).len() ==> 0 <= (
            #[trigger] crate::ty::global_aliases(aliases)[i]).id.idx < 12,
    decreases aliases.len(),
{
    if aliases.len() > 0 {
        assert(forall|i: int|
            0 <= i < aliases.drop_last().len() ==> 0 <= (#[trigger] aliases.drop_last()[i]).id.idx
                < 12);
        lemma_global_aliases_bounded(aliases.drop_last());
        let g = crate::ty::global_aliases(aliases);
        let gp = crate::ty::global_aliases(aliases.drop_last());
        assert forall|i: int| 0 <= i < g.len() implies 0 <= (#[trigger] g[i]).id.idx < 12 by {
            if aliases.last().is_in_function {
                assert(g =~= gp);
                assert(g[i] == gp[i]);
            } else {
                assert(g == gp + seq![aliases.last()]);
                if i < gp.len() {
                    assert(g[i] == gp[i]);
                } else {
                    assert(g[i] == aliases.last());
                    assert(aliases.last() == aliases[aliases.len() - 1]);
                }
            }
        }
    }
}

/// Reads one statement: a `return`, a `typedef`, or a whole function
/// definition with its emitted translation; `None` when no statement
/// starts here.
fn parse_stmt(ctx: &mut Ctx, text: &Vec<char>, pos: usize, in_fn: bool) -> (r: Result<
    Option<(Vec<char>, usize)>,
    CError,
>)
    requires
        ctx_wf(*old(ctx)),
        pos <= text@.len(),
    ensures
        match r {
            Ok(Some(p)) => pos < p.1 <= text@.len() && ctx_wf(*final(ctx)) && final(ctx).types@
                == old(ctx).types@ && final(ctx).ops@ == old(ctx).ops@ && final(ctx).builtins@
                == old(ctx).builtins@ && final(ctx).fns@.len() >= old(ctx).fns@.len(),
            Ok(None) => *final(ctx) == *old(ctx),
            Err(_) => true,
        },
    decreases text@.len() - pos, 17int,
{
    let n = text.len();
    let (w0, wq) = word_at(text, pos);
    if word_is(&w0, "return") {
        if ctx.fns.len() == 0 {
            return Err(CError::Syntax);
        }
        let q2 = ws(text, wq);
        let mut e: Option<Expr> = None;
        let mut cur = wq;
        if q2 > wq && q2 < n && text[q2] != ';' {
            let (ex, p) = match parse_expr(ctx, text, q2) {
                Ok(p) => p,
                Err(er) => {
                    return Err(er);
                },
            };
            e = Some(ex);
            cur = p;
        }
        let q3 = ws(text, cur);
        if q3 >= n || text[q3] != ';' {
            return Err(CError::Syntax);
        }
        let q4 = ws(text, q3 + 1);
        let is_last = q4 < n && text[q4] == '}';
        let active_ret = Function::get(&ctx.fns).ret.clone();
        proof {
            assert(fn_wf(fns_view(ctx.fns@).last()));
        }
        match e {
            None => {
                let void_ty = BuiltinType::Void.as_id();
                if !(active_ret == void_ty) {
                    return Err(CError::ExpectedValue);
                }
                return Ok(Some((Vec::new(), q4)));
            },
            Some(ex) => {
                let converted = match BuiltinType::convert(
                    &ctx.types,
                    &ex.ty,
                    &active_ret,
                    &ex.name,
                ) {
                    Ok(v) => v,
                    Err(er) => {
                        return Err(er);
                    },
                };
                let flat = deparentify(&converted);
                if is_last {
                    return Ok(Some((flat, q4)));
                }
                let mut out: Vec<char> = Vec::new();
                push_str_chars(&mut out, "return ");
                push_all(&mut out, &flat);
                out.push(';');
                return Ok(Some((out, q4)));
            },
        }
    }
    if word_is(&w0, "typedef") {
        let q1 = ws(text, wq);
        if q1 == wq {
            return Err(CError::Syntax);
        }
        let (t, q2) = match parse_ty(ctx, text, q1) {
            Some(p) => p,
            None => {
                return Err(CError::Syntax);
            },
        };
        let (new_name, q3) = match parse_var(text, q2) {
            Some(p) => p,
            None => {
                return Err(CError::Syntax);
            },
        };
        let q4 = ws(text, q3);
        if q4 >= n || text[q4] != ';' {
            return Err(CError::Syntax);
        }
        let q5 = ws(text, q4 + 1);
        proof {
            assert(crate::ty::tid_live(t@, reg_view(ctx.types@)));
        }
        let real_spelling = FullType::real_name(&ctx.types, &t);
        let new_str = chars_to_str(&new_name);
        let mut out: Vec<char> = Vec::new();
        if !chars_eq(&new_name, &real_spelling) && !is_reserved(new_str.as_str()) {
            push_str_chars(&mut out, "type ");
            push_all(&mut out, &new_name);
            push_str_chars(&mut out, " = ");
            push_all(&mut out, &real_spelling);
            out.push(';');
        }
        AliasType::add(&mut ctx.aliases, new_name, t, in_fn);
        proof {
            assert forall|i: int| 0 <= i < ctx.aliases@.len() implies 0 <= (
            #[trigger] ctx.aliases@[i])@.id.idx < 12 by {
                let av0 = aliases_view(old(ctx).aliases@);
                let av1 = aliases_view(ctx.aliases@);
                assert(av1[i] == ctx.aliases@[i]@);
                if i < av0.len() {
                    assert(av1[i] == av0[i]);
                    assert(av0[i] == old(ctx).aliases@[i]@);
                }
            }
        }
        return Ok(Some((out, q5)));
    }
    let (attrs, aq) = match parse_attrs(text, pos) {
        Ok(p) => p,
        Err(e) => {
            return Err(e);
        },
    };
    let (ret_ty, q2) = match parse_ty(ctx, text, aq) {
        Some(p) => p,
        None => {
            if attrs.len() > 0 {
                return Err(CError::Syntax);
            }
            return Ok(None);
        },
    };
    let (fname, q3) = match parse_var(text, q2) {
        Some(p) => p,
        None => {
            return Err(CError::Syntax);
        },
    };
    let q4 = ws(text, q3);
    if q4 >= n || text[q4] != '(' {
        return Err(CError::Syntax);
    }
    let (lets, q5) = match parse_params(ctx, text, q4 + 1) {
        Ok(p) => p,
        Err(e) => {
            return Err(e);
        },
    };
    let mut i: usize = 0;
    while i < attrs.len()
        invariant
            0 <= i <= attrs@.len(),
        decreases attrs@.len() - i,
    {
        let mut j = i + 1;
        while j < attrs.len()
            invariant
                i < j <= attrs@.len() || j == i + 1,
            decreases attrs@.len() - j,
        {
            if chars_eq(&attrs[i], &attrs[j]) {
                return Err(CError::DuplicateAttributes);
            }
            j = j + 1;
        }
        i = i + 1;
    }
    let mut flags = FnFlags::full();
    let mut k: usize = 0;
    while k < attrs.len()
        invariant
            0 <= k <= attrs@.len(),
        decreases attrs@.len() - k,
    {
        if word_is(&attrs[k], "%U") {
            flags = FnFlags { safe: false, public: flags.public };
        } else if word_is(&attrs[k], "%P") {
            flags = FnFlags { safe: flags.safe, public: flags.public && false };
        }
        k = k + 1;
    }
    let nargs = lets.len();
    let record = Function { name: fname, ret: ret_ty, args: nargs, lets, attrs, flags };
    proof {
        assert(fn_wf(record@));
    }
    Function::add(&mut ctx.fns, record);
    proof {
        assert forall|i2: int| 0 <= i2 < ctx.fns@.len() implies fn_wf(
            (#[trigger] ctx.fns@[i2])@,
        ) by {
            let fv0 = fns_view(old(ctx).fns@);
            let fv1 = fns_view(ctx.fns@);
            assert(fv1[i2] == ctx.fns@[i2]@);
            if i2 < fv0.len() {
                assert(fv1[i2] == fv0[i2]);
                assert(fv0[i2] == old(ctx).fns@[i2]@);
            }
        }
    }
    let q6 = ws(text, q5);
    if q6 >= n || text[q6] != '{' {
        return Err(CError::Syntax);
    }
    let body = match parse_stmts(ctx, text, q6 + 1, true) {
        Ok(p) => p,
        Err(e) => {
            return Err(e);
        },
    };
    let (body_text, q7) = body;
    let q8 = ws(text, q7);
    if q8 >= n || text[q8] != '}' {
        return Err(CError::Syntax);
    }
    let q9 = ws(text, q8 + 1);
    if ctx.fns.len() == 0 {
        return Err(CError::Syntax);
    }
    let fi = ctx.fns.len() - 1;
    proof {
        assert(fn_wf(ctx.fns@[fi as int]@));
    }
    let mut out: Vec<char> = Vec::new();
    out.push('\n');
    let mut a: usize = 0;
    while a < ctx.fns[fi].attrs.len()
        invariant
            fi < ctx.fns@.len(),
            0 <= a <= ctx.fns@[fi as int].attrs@.len(),
        decreases ctx.fns@[fi as int].attrs@.len() - a,
    {
        let attr = &ctx.fns[fi].attrs[a];
        if attr.len() > 0 && attr[0] != '%' {
            push_str_chars(&mut out, "#[");
            push_all(&mut out, attr);
            push_str_chars(&mut out, "]\n");
        }
        a = a + 1;
    }
    if ctx.fns[fi].flags.public {
        push_str_chars(&mut out, "pub ");
    }
    if !ctx.fns[fi].flags.safe {
        push_str_chars(&mut out, "unsafe ");
    }
    push_str_chars(&mut out, "fn ");
    push_all(&mut out, &ctx.fns[fi].name);
    out.push('(');
    let argn = if ctx.fns[fi].args <= ctx.fns[fi].lets.len() {
        ctx.fns[fi].args
    } else {
        ctx.fns[fi].lets.len()
    };
    let mut pi: usize = 0;
    while pi < argn
        invariant
            ctx_wf(*ctx),
            fi < ctx.fns@.len(),
            argn <= ctx.fns@[fi as int].lets@.len(),
        decreases argn - pi,
    {
        proof {
            assert(fn_wf(ctx.fns@[fi as int]@));
            assert(let_wf(lets_view(ctx.fns@[fi as int].lets@)[pi as int]));
            assert(lets_view(ctx.fns@[fi as int].lets@)[pi as int]
                == ctx.fns@[fi as int].lets@[pi as int]@);
        }
        if pi > 0 {
            push_str_chars(&mut out, ", ");
        }
        if ctx.fns[fi].lets[pi].mutable {
            push_str_chars(&mut out, "mut ");
        }
        push_all(&mut out, &ctx.fns[fi].lets[pi].name);
        push_str_chars(&mut out, ": ");
        if ctx.fns[fi].lets[pi].ty.idx >= 12 {
            return Err(CError::NotConvertible);
        }
        let spelling = FullType::real_name(&ctx.types, &ctx.fns[fi].lets[pi].ty);
        push_all(&mut out, &spelling);
        pi = pi + 1;
    }
    out.push(')');
    let noreturn = attrs_have(&ctx.fns[fi].attrs, '%', 'N');
    let void_ty = BuiltinType::Void.as_id();
    let ret_is_void = ctx.fns[fi].ret == void_ty;
    if noreturn {
        push_str_chars(&mut out, " -> !");
    } else if !ret_is_void {
        proof {
            assert(fn_wf(ctx.fns@[fi as int]@));
        }
        if ctx.fns[fi].ret.idx >= 12 {
            return Err(CError::NotConvertible);
        }
        let spelling = FullType::real_name(&ctx.types, &ctx.fns[fi].ret);
        push_str_chars(&mut out, " -> ");
        push_all(&mut out, &spelling);
    }
    if body_text.len() == 0 && !ret_is_void {
        return Err(CError::EmptyBody);
    }
    push_str_chars(&mut out, " {\n\t");
    push_all(&mut out, &body_text);
    push_str_chars(&mut out, "\n}\n\n");
    let ghost pre_clear = aliases_view(ctx.aliases@);
    AliasType::clear(&mut ctx.aliases);
    proof {
        lemma_global_aliases_bounded(pre_clear);
        assert forall|i2: int| 0 <= i2 < ctx.aliases@.len() implies 0 <= (
        #[trigger] ctx.aliases@[i2])@.id.idx < 12 by {
            assert(aliases_view(ctx.aliases@)[i2] == ctx.aliases@[i2]@);
            assert(aliases_view(ctx.aliases@)[i2] == crate::ty::global_aliases(pre_clear)[i2]);
        }
    }
    Ok(Some((out, q9)))
}

/// Reads statements until none matches, joining them with a newline and
/// the indentation the table shows once all of them are read.
fn parse_stmts(ctx: &mut Ctx, text: &Vec<char>, pos: usize, in_fn: bool) -> (r: Result<
    (Vec<char>, usize),
    CError,
>)
    requires
        ctx_wf(*old(ctx)),
        pos <= text@.len(),
    ensures
        match r {
            Ok(p) => pos <= p.1 <= text@.len() && ctx_wf(*final(ctx)) && final(ctx).types@
                == old(ctx).types@ && final(ctx).ops@ == old(ctx).ops@ && final(ctx).builtins@
                == old(ctx).builtins@ && final(ctx).fns@.len() >= old(ctx).fns@.len(),
            Err(_) => true,
        },
    decreases text@.len() - pos, 18int,
{
    let mut cur = ws(text, pos);
    let mut stmts: Vec<Vec<char>> = Vec::new();
    loop
        invariant
            ctx_wf(*ctx),
            ctx.types@ == old(ctx).types@,
            ctx.ops@ == old(ctx).ops@,
            ctx.builtins@ == old(ctx).builtins@,
            ctx.fns@.len() >= old(ctx).fns@.len(),
            pos <= cur <= text@.len(),
        decreases text@.len() - cur,
    {
        match parse_stmt(ctx, text, cur, in_fn) {
            Err(e) => {
                return Err(e);
            },
            Ok(None) => {
                let sep = Tab::tabs_nl(&ctx.fns);
                let mut out: Vec<char> = Vec::new();
                let mut i: usize = 0;
                while i < stmts.len()
                    invariant
                        0 <= i <= stmts@.len(),
                    decreases stmts@.len() - i,
                {
                    if i > 0 {
                        push_all(&mut out, &sep);
                    }
                    push_all(&mut out, &stmts[i]);
                    i = i + 1;
                }
                return Ok((out, cur));
            },
            Ok(Some((s, p))) => {
                stmts.push(s);
                cur = p;
            },
        }
    }
}

/// Translates one unit and hands the emitted text back. The pipeline:
/// fresh tables, predefined macros, comment stripping and preprocessing
/// (`spec_pre_file` says exactly what that stage yields), then statement
/// parsing and emission over the whole preprocessed text; any stage's
/// failure aborts the translation with nothing emitted.
pub fn start(file: &str, code: &str, sources: &SourceSet) -> (r: Result<String, CError>)
    ensures
        r is Ok ==> exists|st: crate::preprocessor::PreV|
            crate::preprocessor::predefined_state(st, file@)
                && #[trigger] crate::preprocessor::spec_pre_file(
                sources.files@,
                code@,
                st,
                NESTING_LIMIT as int,
            ) is Ok,
{
    let mut ctx = Ctx::new();
    let mut st = Preproc::new(file);
    let ghost st_init = crate::preprocessor::pre_view(st);
    let chars = str_to_chars(code);
    let processed = match preprocess_file(&mut st, sources, chars, NESTING_LIMIT) {
        Ok(t) => t,
        Err(e) => {
            return Err(e);
        },
    };
    proof {
        assert(crate::preprocessor::predefined_state(st_init, file@));
        assert(crate::preprocessor::spec_pre_file(
            sources.files@,
            code@,
            st_init,
            NESTING_LIMIT as int,
        ) == Ok::<(Seq<char>, crate::preprocessor::PreV), CError>((
            processed@,
            crate::preprocessor::pre_view(st),
        )));
    }
    let (out, p) = match parse_stmts(&mut ctx, &processed, 0, false) {
        Ok(t) => t,
        Err(e) => {
            return Err(e);
        },
    };
    if p != processed.len() {
        return Err(CError::Syntax);
    }
    Ok(chars_to_str(&out))
}

/// A name for what the outside keyword check returns: whether a word is a
/// keyword of the target language, a function of the word alone.
pub uninterp spec fn reserved_word(w: Seq<char>) -> bool;

} // verus!
