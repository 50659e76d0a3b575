//! The macro table and the textual preprocessor: directive interpretation
//! (`define`, `undef`, conditional blocks, line control, file splicing),
//! single-pass macro substitution, and line counting.

use vstd::prelude::*;

use chrono::{Datelike, Timelike};

use crate::comment::{comments_view, comments_wf, strip_from, Comment, CommentV};
use crate::err::CError;
use crate::text::{
    chars_eq, dec_rep, dec_rep_signed, is_digit, is_letter, is_word_char, pad2_rep, parse_u64,
    push_all, push_str_chars, str_to_chars, u64_dec, u64_pad2, word_is, i64_dec,
};

verus! {

broadcast use vstd::string::group_string_axioms;

/// The mathematical value of a macro.
#[verifier::ext_equal]
pub struct MacroV {
    pub name: Seq<char>,
    pub value: Seq<char>,
}

/// One object-like macro: a name and its verbatim replacement text.
pub struct Macro {
    pub name: Vec<char>,
    pub value: Vec<char>,
}

impl View for Macro {
    type V = MacroV;

    open spec fn view(&self) -> MacroV {
        MacroV { name: self.name@, value: self.value@ }
    }
}

/// The macro table as a sequence of macro values.
pub open spec fn macros_view(ms: Seq<Macro>) -> Seq<MacroV> {
    ms.map(|i: int, m: Macro| m@)
}

/// The replacement text of the first macro with the given name, if any.
pub open spec fn macro_value(ms: Seq<MacroV>, name: Seq<char>) -> Option<Seq<char>>
    decreases ms.len(),
{
    if ms.len() == 0 {
        None
    } else if ms[0].name == name {
        Some(ms[0].value)
    } else {
        macro_value(ms.drop_first(), name)
    }
}

/// The table with the first macro of the given name removed, if present.
pub open spec fn macro_removed(ms: Seq<MacroV>, name: Seq<char>) -> Seq<MacroV>
    decreases ms.len(),
{
    if ms.len() == 0 {
        Seq::empty()
    } else if ms[0].name == name {
        ms.drop_first()
    } else {
        seq![ms[0]] + macro_removed(ms.drop_first(), name)
    }
}

proof fn lemma_value_after_add(ms: Seq<MacroV>, name: Seq<char>, value: Seq<char>, other: Seq<char>)
    ensures
        macro_value(spec_added(ms, name, value), other) == (if other == name {
            Some(value)
        } else {
            macro_value(ms, other)
        }),
    decreases ms.len(),
{
    let added = spec_added(ms, name, value);
    if ms.len() > 0 {
        if ms[0].name == name {
            assert(added == seq![MacroV { name, value }] + ms.drop_first());
            assert(added.len() > 0);
            assert(added[0] == MacroV { name, value });
            assert(added.drop_first() =~= ms.drop_first());
            if other == name {
                assert(macro_value(added, other) == Some(value));
            } else {
                assert(macro_value(added, other) == macro_value(added.drop_first(), other));
                assert(macro_value(ms, other) == macro_value(ms.drop_first(), other));
            }
        } else {
            assert(added == seq![ms[0]] + spec_added(ms.drop_first(), name, value));
            assert(added.len() > 0);
            assert(added[0] == ms[0]);
            assert(added.drop_first() =~= spec_added(ms.drop_first(), name, value));
            lemma_value_after_add(ms.drop_first(), name, value, other);
            if other == ms[0].name {
                assert(macro_value(added, other) == Some(ms[0].value));
                assert(macro_value(ms, other) == Some(ms[0].value));
            } else {
                assert(macro_value(added, other) == macro_value(added.drop_first(), other));
                assert(macro_value(ms, other) == macro_value(ms.drop_first(), other));
            }
        }
    } else {
        assert(added =~= seq![MacroV { name, value }]);
        assert(added.len() == 1);
        assert(added[0] == MacroV { name, value });
        if other == name {
            assert(macro_value(added, other) == Some(value));
        } else {
            assert(added.drop_first() =~= Seq::<MacroV>::empty());
            assert(macro_value(added, other) == macro_value(added.drop_first(), other));
        }
    }
}

/// The table after registering a replacement: the first macro of that
/// name is overwritten, or a new entry is appended.
pub open spec fn spec_added(ms: Seq<MacroV>, name: Seq<char>, value: Seq<char>) -> Seq<MacroV>
    decreases ms.len(),
{
    if ms.len() == 0 {
        seq![MacroV { name, value }]
    } else if ms[0].name == name {
        seq![MacroV { name, value }] + ms.drop_first()
    } else {
        seq![ms[0]] + spec_added(ms.drop_first(), name, value)
    }
}

/// The predefined macro names are pairwise distinct.
proof fn lemma_predef_names_distinct()
    ensures
        "__STDC__"@ != "__STDC_VERSION__"@,
        "__STDC__"@ != "__RUST__"@,
        "__STDC__"@ != "__qas_minor__"@,
        "__STDC__"@ != "__qas_major__"@,
        "__STDC__"@ != "__qas_patch__"@,
        "__STDC__"@ != "__DATE__"@,
        "__STDC__"@ != "__TIME__"@,
        "__STDC_VERSION__"@ != "__RUST__"@,
        "__STDC_VERSION__"@ != "__qas_minor__"@,
        "__STDC_VERSION__"@ != "__qas_major__"@,
        "__STDC_VERSION__"@ != "__qas_patch__"@,
        "__STDC_VERSION__"@ != "__DATE__"@,
        "__STDC_VERSION__"@ != "__TIME__"@,
        "__RUST__"@ != "__qas_minor__"@,
        "__RUST__"@ != "__qas_major__"@,
        "__RUST__"@ != "__qas_patch__"@,
        "__RUST__"@ != "__DATE__"@,
        "__RUST__"@ != "__TIME__"@,
        "__qas_minor__"@ != "__qas_major__"@,
        "__qas_minor__"@ != "__qas_patch__"@,
        "__qas_minor__"@ != "__DATE__"@,
        "__qas_minor__"@ != "__TIME__"@,
        "__qas_major__"@ != "__qas_patch__"@,
        "__qas_major__"@ != "__DATE__"@,
        "__qas_major__"@ != "__TIME__"@,
        "__qas_patch__"@ != "__DATE__"@,
        "__qas_patch__"@ != "__TIME__"@,
        "__DATE__"@ != "__TIME__"@,
{
    reveal_strlit("__STDC__");
    reveal_strlit("__STDC_VERSION__");
    reveal_strlit("__RUST__");
    reveal_strlit("__qas_minor__");
    reveal_strlit("__qas_major__");
    reveal_strlit("__qas_patch__");
    reveal_strlit("__DATE__");
    reveal_strlit("__TIME__");
    assert("__STDC__"@.len() == 8);
    assert("__STDC_VERSION__"@.len() == 16);
    assert("__RUST__"@.len() == 8);
    assert("__qas_minor__"@.len() == 13);
    assert("__qas_major__"@.len() == 13);
    assert("__qas_patch__"@.len() == 13);
    assert("__DATE__"@.len() == 8);
    assert("__TIME__"@.len() == 8);
    assert("__STDC__"@[2] == 'S');
    assert("__RUST__"@[2] == 'R');
    assert("__DATE__"@[2] == 'D');
    assert("__TIME__"@[2] == 'T');
    assert("__qas_minor__"@[7] == 'i');
    assert("__qas_major__"@[7] == 'a');
    assert("__qas_patch__"@[7] == 'a');
    assert("__qas_major__"@[6] == 'm');
    assert("__qas_patch__"@[6] == 'p');
}

impl Macro {
    /// Looks the name up; the first registration wins.
    pub fn find(ms: &Vec<Macro>, name: &Vec<char>) -> (r: Option<Vec<char>>)
        ensures
            match r {
                Some(v) => macro_value(macros_view(ms@), name@) == Some(v@),
                None => macro_value(macros_view(ms@), name@) is None,
            },
    {
        let ghost mv = macros_view(ms@);
        let mut i: usize = 0;
        assert(mv.skip(0) =~= mv);
        while i < ms.len()
            invariant
                mv == macros_view(ms@),
                mv.len() == ms@.len(),
                0 <= i <= ms@.len(),
                macro_value(mv, name@) == macro_value(mv.skip(i as int), name@),
            decreases ms@.len() - i,
        {
            proof {
                assert(mv.skip(i as int)[0] == mv[i as int]);
                assert(mv.skip(i as int).drop_first() =~= mv.skip(i as int + 1));
            }
            if chars_eq(&ms[i].name, name) {
                return Some(ms[i].value.clone());
            }
            i = i + 1;
        }
        proof {
            assert(mv.skip(i as int) =~= Seq::<MacroV>::empty());
        }
        None
    }

    /// Whether the name is currently defined.
    pub fn is_defined(ms: &Vec<Macro>, name: &Vec<char>) -> (r: bool)
        ensures
            r == (macro_value(macros_view(ms@), name@) is Some),
    {
        match Macro::find(ms, name) {
            Some(_) => true,
            None => false,
        }
    }

    /// Registers a replacement: overwrites the first macro of that name,
    /// or appends a new entry. Every other name keeps its replacement.
    pub fn add(ms: &mut Vec<Macro>, name: &Vec<char>, value: &Vec<char>)
        ensures
            macros_view(final(ms)@) =~= spec_added(macros_view(old(ms)@), name@, value@),
            forall|other: Seq<char>|
                #[trigger] macro_value(macros_view(final(ms)@), other) == (if other == name@ {
                    Some(value@)
                } else {
                    macro_value(macros_view(old(ms)@), other)
                }),
    {
        let ghost mv = macros_view(ms@);
        let ghost nv = name@;
        let ghost vv = value@;
        let mut i: usize = 0;
        assert(mv.skip(0) =~= mv);
        #[verifier::loop_isolation(false)]
        while i < ms.len()
            invariant
                ms@ == old(ms)@,
                0 <= i <= ms@.len(),
                forall|j: int| 0 <= j < i ==> mv[j].name != nv,
                spec_added(mv, nv, vv) =~= mv.take(i as int) + spec_added(
                    mv.skip(i as int),
                    nv,
                    vv,
                ),
            decreases ms@.len() - i,
        {
            proof {
                assert(mv.skip(i as int)[0] == mv[i as int]);
                assert(mv.skip(i as int).drop_first() =~= mv.skip(i as int + 1));
            }
            if chars_eq(&ms[i].name, name) {
                let m = Macro { name: name.clone(), value: value.clone() };
                ms.set(i, m);
                proof {
                    assert(spec_added(mv.skip(i as int), nv, vv) =~= seq![
                        MacroV { name: nv, value: vv },
                    ] + mv.skip(i as int + 1));
                    assert(macros_view(ms@) =~= spec_added(mv, nv, vv));
                    lemma_value_after_add(mv, nv, vv, nv);
                    assert forall|other: Seq<char>| #[trigger]
                        macro_value(macros_view(ms@), other) == (if other == nv {
                            Some(vv)
                        } else {
                            macro_value(mv, other)
                        }) by {
                        lemma_value_after_add(mv, nv, vv, other);
                    }
                }
                return ;
            }
            proof {
                assert(mv.take(i as int + 1) =~= mv.take(i as int) + seq![mv[i as int]]);
                assert(mv.take(i as int + 1) + spec_added(mv.skip(i as int + 1), nv, vv)
                    =~= mv.take(i as int) + spec_added(mv.skip(i as int), nv, vv));
            }
            i = i + 1;
        }
        let m = Macro { name: name.clone(), value: value.clone() };
        ms.push(m);
        proof {
            assert(m@ == MacroV { name: nv, value: vv });
            assert(mv.skip(i as int) =~= Seq::<MacroV>::empty());
            assert(spec_added(mv.skip(i as int), nv, vv) =~= seq![MacroV { name: nv, value: vv }]);
            assert(mv.take(i as int) =~= mv);
            assert(macros_view(ms@) =~= spec_added(mv, nv, vv));
            assert forall|other: Seq<char>| #[trigger]
                macro_value(macros_view(ms@), other) == (if other == nv {
                    Some(vv)
                } else {
                    macro_value(mv, other)
                }) by {
                lemma_value_after_add(mv, nv, vv, other);
            }
        }
    }

    /// Removes the first macro of the given name, if present; absence is
    /// no error.
    pub fn remove(ms: &mut Vec<Macro>, name: &Vec<char>)
        ensures
            macros_view(final(ms)@) =~= macro_removed(macros_view(old(ms)@), name@),
    {
        let ghost mv = macros_view(ms@);
        let mut i: usize = 0;
        assert(mv.skip(0) =~= mv);
        #[verifier::loop_isolation(false)]
        while i < ms.len()
            invariant
                ms@ == old(ms)@,
                0 <= i <= ms@.len(),
                forall|j: int| 0 <= j < i ==> mv[j].name != name@,
                macro_removed(mv, name@) =~= mv.take(i as int) + macro_removed(
                    mv.skip(i as int),
                    name@,
                ),
            decreases ms@.len() - i,
        {
            proof {
                assert(mv.skip(i as int)[0] == mv[i as int]);
                assert(mv.skip(i as int).drop_first() =~= mv.skip(i as int + 1));
            }
            if chars_eq(&ms[i].name, name) {
                ms.remove(i);
                proof {
                    assert(macro_removed(mv.skip(i as int), name@) =~= mv.skip(i as int + 1));
                    assert(macros_view(ms@) =~= macro_removed(mv, name@));
                }
                return ;
            }
            proof {
                assert(mv.take(i as int + 1) =~= mv.take(i as int) + seq![mv[i as int]]);
                assert(mv.take(i as int + 1) + macro_removed(mv.skip(i as int + 1), name@)
                    =~= mv.take(i as int) + macro_removed(mv.skip(i as int), name@));
            }
            i = i + 1;
        }
        proof {
            assert(mv.skip(i as int) =~= Seq::<MacroV>::empty());
            assert(mv.take(i as int) =~= mv);
            assert(macros_view(ms@) =~= macro_removed(mv, name@));
        }
    }

    /// Registers the predefined macros: standard-version markers, the
    /// target marker, the product version triplet, and the current date
    /// and time from the clock. Platform markers are the caller's to add.
    pub fn predefine_all(ms: &mut Vec<Macro>)
        ensures
            macro_value(macros_view(final(ms)@), "__STDC__"@) == Some("1"@),
            macro_value(macros_view(final(ms)@), "__STDC_VERSION__"@) == Some("199901"@),
            macro_value(macros_view(final(ms)@), "__RUST__"@) == Some(""@),
            macro_value(macros_view(final(ms)@), "__qas_minor__"@) == Some("0"@),
            macro_value(macros_view(final(ms)@), "__qas_major__"@) == Some("0"@),
            macro_value(macros_view(final(ms)@), "__qas_patch__"@) == Some("0"@),
            exists|y: int, m0: int, d: int|
                0 <= m0 <= 11 && 1 <= d <= 31 && macro_value(macros_view(final(ms)@), "__DATE__"@)
                    == Some(#[trigger] date_text(y, m0, d)),
            exists|h: int, mi: int, s: int|
                0 <= h <= 23 && 0 <= mi <= 59 && 0 <= s <= 60 && macro_value(
                    macros_view(final(ms)@),
                    "__TIME__"@,
                ) == Some(#[trigger] time_text(h, mi, s)),
    {
        let ghost m0 = macros_view(ms@);
        Macro::add(ms, &str_to_chars("__STDC__"), &str_to_chars("1"));
        proof {
            lemma_predef_names_distinct();
            assert(macros_view(ms@) == spec_added(m0, "__STDC__"@, "1"@));
            lemma_value_after_add(m0, "__STDC__"@, "1"@, "__STDC__"@);
            assert(macro_value(macros_view(ms@), "__STDC__"@) == Some("1"@));
        }
        let ghost m1 = macros_view(ms@);
        Macro::add(ms, &str_to_chars("__STDC_VERSION__"), &str_to_chars("199901"));
        proof {
            lemma_predef_names_distinct();
            assert(macros_view(ms@) == spec_added(m1, "__STDC_VERSION__"@, "199901"@));
            lemma_value_after_add(m1, "__STDC_VERSION__"@, "199901"@, "__STDC_VERSION__"@);
            lemma_value_after_add(m1, "__STDC_VERSION__"@, "199901"@, "__STDC__"@);
            assert(macro_value(macros_view(ms@), "__STDC__"@) == Some("1"@));
            assert(macro_value(macros_view(ms@), "__STDC_VERSION__"@) == Some("199901"@));
        }
        let ghost m2 = macros_view(ms@);
        Macro::add(ms, &str_to_chars("__RUST__"), &str_to_chars(""));
        proof {
            lemma_predef_names_distinct();
            assert(macros_view(ms@) == spec_added(m2, "__RUST__"@, ""@));
            lemma_value_after_add(m2, "__RUST__"@, ""@, "__RUST__"@);
            lemma_value_after_add(m2, "__RUST__"@, ""@, "__STDC__"@);
            lemma_value_after_add(m2, "__RUST__"@, ""@, "__STDC_VERSION__"@);
            assert(macro_value(macros_view(ms@), "__STDC__"@) == Some("1"@));
            assert(macro_value(macros_view(ms@), "__STDC_VERSION__"@) == Some("199901"@));
            assert(macro_value(macros_view(ms@), "__RUST__"@) == Some(""@));
        }
        let ghost m3 = macros_view(ms@);
        Macro::add(ms, &str_to_chars("__qas_minor__"), &str_to_chars("0"));
        proof {
            lemma_predef_names_distinct();
            assert(macros_view(ms@) == spec_added(m3, "__qas_minor__"@, "0"@));
            lemma_value_after_add(m3, "__qas_minor__"@, "0"@, "__qas_minor__"@);
            lemma_value_after_add(m3, "__qas_minor__"@, "0"@, "__STDC__"@);
            lemma_value_after_add(m3, "__qas_minor__"@, "0"@, "__STDC_VERSION__"@);
            lemma_value_after_add(m3, "__qas_minor__"@, "0"@, "__RUST__"@);
            assert(macro_value(macros_view(ms@), "__STDC__"@) == Some("1"@));
            assert(macro_value(macros_view(ms@), "__STDC_VERSION__"@) == Some("199901"@));
            assert(macro_value(macros_view(ms@), "__RUST__"@) == Some(""@));
            assert(macro_value(macros_view(ms@), "__qas_minor__"@) == Some("0"@));
        }
        let ghost m4 = macros_view(ms@);
        Macro::add(ms, &str_to_chars("__qas_major__"), &str_to_chars("0"));
        proof {
            lemma_predef_names_distinct();
            assert(macros_view(ms@) == spec_added(m4, "__qas_major__"@, "0"@));
            lemma_value_after_add(m4, "__qas_major__"@, "0"@, "__qas_major__"@);
            lemma_value_after_add(m4, "__qas_major__"@, "0"@, "__STDC__"@);
            lemma_value_after_add(m4, "__qas_major__"@, "0"@, "__STDC_VERSION__"@);
            lemma_value_after_add(m4, "__qas_major__"@, "0"@, "__RUST__"@);
            lemma_value_after_add(m4, "__qas_major__"@, "0"@, "__qas_minor__"@);
            assert(macro_value(macros_view(ms@), "__STDC__"@) == Some("1"@));
            assert(macro_value(macros_view(ms@), "__STDC_VERSION__"@) == Some("199901"@));
            assert(macro_value(macros_view(ms@), "__RUST__"@) == Some(""@));
            assert(macro_value(macros_view(ms@), "__qas_minor__"@) == Some("0"@));
            assert(macro_value(macros_view(ms@), "__qas_major__"@) == Some("0"@));
        }
        let ghost m5 = macros_view(ms@);
        Macro::add(ms, &str_to_chars("__qas_patch__"), &str_to_chars("0"));
        proof {
            lemma_predef_names_distinct();
            assert(macros_view(ms@) == spec_added(m5, "__qas_patch__"@, "0"@));
            lemma_value_after_add(m5, "__qas_patch__"@, "0"@, "__qas_patch__"@);
            lemma_value_after_add(m5, "__qas_patch__"@, "0"@, "__STDC__"@);
            lemma_value_after_add(m5, "__qas_patch__"@, "0"@, "__STDC_VERSION__"@);
            lemma_value_after_add(m5, "__qas_patch__"@, "0"@, "__RUST__"@);
            lemma_value_after_add(m5, "__qas_patch__"@, "0"@, "__qas_minor__"@);
            lemma_value_after_add(m5, "__qas_patch__"@, "0"@, "__qas_major__"@);
            assert(macro_value(macros_view(ms@), "__STDC__"@) == Some("1"@));
            assert(macro_value(macros_view(ms@), "__STDC_VERSION__"@) == Some("199901"@));
            assert(macro_value(macros_view(ms@), "__RUST__"@) == Some(""@));
            assert(macro_value(macros_view(ms@), "__qas_minor__"@) == Some("0"@));
            assert(macro_value(macros_view(ms@), "__qas_major__"@) == Some("0"@));
            assert(macro_value(macros_view(ms@), "__qas_patch__"@) == Some("0"@));
        }
        let (y, m0v, d, h, mi, s) = local_now();
        let date = format_date(y, m0v, d);
        let ghost m6 = macros_view(ms@);
        Macro::add(ms, &str_to_chars("__DATE__"), &date);
        proof {
            lemma_predef_names_distinct();
            assert(macros_view(ms@) == spec_added(m6, "__DATE__"@, date@));
            lemma_value_after_add(m6, "__DATE__"@, date@, "__DATE__"@);
            lemma_value_after_add(m6, "__DATE__"@, date@, "__STDC__"@);
            lemma_value_after_add(m6, "__DATE__"@, date@, "__STDC_VERSION__"@);
            lemma_value_after_add(m6, "__DATE__"@, date@, "__RUST__"@);
            lemma_value_after_add(m6, "__DATE__"@, date@, "__qas_minor__"@);
            lemma_value_after_add(m6, "__DATE__"@, date@, "__qas_major__"@);
            lemma_value_after_add(m6, "__DATE__"@, date@, "__qas_patch__"@);
        }
        let time = format_time(h, mi, s);
        let ghost m7 = macros_view(ms@);
        Macro::add(ms, &str_to_chars("__TIME__"), &time);
        proof {
            lemma_predef_names_distinct();
            assert(macros_view(ms@) == spec_added(m7, "__TIME__"@, time@));
            lemma_value_after_add(m7, "__TIME__"@, time@, "__TIME__"@);
            lemma_value_after_add(m7, "__TIME__"@, time@, "__DATE__"@);
            lemma_value_after_add(m7, "__TIME__"@, time@, "__STDC__"@);
            lemma_value_after_add(m7, "__TIME__"@, time@, "__STDC_VERSION__"@);
            lemma_value_after_add(m7, "__TIME__"@, time@, "__RUST__"@);
            lemma_value_after_add(m7, "__TIME__"@, time@, "__qas_minor__"@);
            lemma_value_after_add(m7, "__TIME__"@, time@, "__qas_major__"@);
            lemma_value_after_add(m7, "__TIME__"@, time@, "__qas_patch__"@);
            assert(macro_value(macros_view(ms@), "__DATE__"@) == Some(date_text(
                y as int,
                m0v as int,
                d as int,
            )));
            assert(macro_value(macros_view(ms@), "__TIME__"@) == Some(time_text(
                h as int,
                mi as int,
                s as int,
            )));
        }
    }
}

/// Relies on `chrono::Local::now` with the `Datelike` and `Timelike`
/// accessors `year`, `month0`, `day`, `hour`, `minute` and `second`: the
/// local calendar date and clock time as plain numbers, within the ranges
/// those accessors document. The clock decides the values; nothing more is
/// assumed of them.
#[verifier::external_body]
fn local_now() -> (r: (i32, u32, u32, u32, u32, u32))
    ensures
        r.1 <= 11,
        1 <= r.2 <= 31,
        r.3 <= 23,
        r.4 <= 59,
        r.5 <= 60,
{
    let now = chrono::Local::now();
    (now.year(), now.month0(), now.day(), now.hour(), now.minute(), now.second())
}

/// The three-letter month name for a zero-based month number.
pub open spec fn month_name(m0: int) -> Seq<char> {
    if m0 == 0 {
        "Jan"@
    } else if m0 == 1 {
        "Feb"@
    } else if m0 == 2 {
        "Mar"@
    } else if m0 == 3 {
        "Apr"@
    } else if m0 == 4 {
        "May"@
    } else if m0 == 5 {
        "Jun"@
    } else if m0 == 6 {
        "Jul"@
    } else if m0 == 7 {
        "Aug"@
    } else if m0 == 8 {
        "Sep"@
    } else if m0 == 9 {
        "Oct"@
    } else if m0 == 10 {
        "Nov"@
    } else {
        "Dec"@
    }
}

/// The quoted date text: month name, zero-padded day, year.
pub open spec fn date_text(y: int, m0: int, d: int) -> Seq<char> {
    seq!['"'] + month_name(m0) + seq![' '] + pad2_rep(d as nat) + seq![' '] + dec_rep_signed(y)
        + seq!['"']
}

/// Formats the quoted date replacement for the date macro.
pub fn format_date(y: i32, m0: u32, d: u32) -> (r: Vec<char>)
    requires
        m0 <= 11,
        d <= 99,
    ensures
        r@ == date_text(y as int, m0 as int, d as int),
{
    let mut out: Vec<char> = Vec::new();
    out.push('"');
    let name: &str = if m0 == 0 {
        "Jan"
    } else if m0 == 1 {
        "Feb"
    } else if m0 == 2 {
        "Mar"
    } else if m0 == 3 {
        "Apr"
    } else if m0 == 4 {
        "May"
    } else if m0 == 5 {
        "Jun"
    } else if m0 == 6 {
        "Jul"
    } else if m0 == 7 {
        "Aug"
    } else if m0 == 8 {
        "Sep"
    } else if m0 == 9 {
        "Oct"
    } else if m0 == 10 {
        "Nov"
    } else {
        "Dec"
    };
    push_str_chars(&mut out, name);
    out.push(' ');
    let mut day = u64_pad2(d as u64);
    out.append(&mut day);
    out.push(' ');
    let mut year = i64_dec(y as i64);
    out.append(&mut year);
    out.push('"');
    assert(out@ =~= date_text(y as int, m0 as int, d as int));
    out
}

/// The quoted clock text: zero-padded hours, minutes and seconds.
pub open spec fn time_text(h: int, mi: int, s: int) -> Seq<char> {
    seq!['"'] + pad2_rep(h as nat) + seq![':'] + pad2_rep(mi as nat) + seq![':'] + pad2_rep(
        s as nat,
    ) + seq!['"']
}

/// Formats the quoted clock replacement for the time macro.
pub fn format_time(h: u32, mi: u32, s: u32) -> (r: Vec<char>)
    requires
        h <= 99,
        mi <= 99,
        s <= 99,
    ensures
        r@ == time_text(h as int, mi as int, s as int),
{
    let mut out: Vec<char> = Vec::new();
    out.push('"');
    let mut t = u64_pad2(h as u64);
    out.append(&mut t);
    out.push(':');
    let mut t2 = u64_pad2(mi as u64);
    out.append(&mut t2);
    out.push(':');
    let mut t3 = u64_pad2(s as u64);
    out.append(&mut t3);
    out.push('"');
    assert(out@ =~= time_text(h as int, mi as int, s as int));
    out
}



/// One source file handed in for splicing: its path as the directives
/// name it, and its raw text.
pub struct SourceFile {
    pub path: Vec<char>,
    pub text: Vec<char>,
}

/// The text of the first supplied source with the given path, if any.
pub open spec fn source_text(files: Seq<SourceFile>, path: Seq<char>) -> Option<Seq<char>>
    decreases files.len(),
{
    if files.len() == 0 {
        None
    } else if files[0].path@ == path {
        Some(files[0].text@)
    } else {
        source_text(files.drop_first(), path)
    }
}

/// The set of sources the caller makes available to file splicing;
/// relative path resolution is the caller's business.
pub struct SourceSet {
    pub files: Vec<SourceFile>,
}

impl SourceSet {
    /// An empty set: any splice directive then fails.
    pub fn new() -> (r: SourceSet)
        ensures
            r.files@.len() == 0,
    {
        SourceSet { files: Vec::new() }
    }

    /// Hands a source in.
    pub fn supply(&mut self, path: &str, text: &str)
        ensures
            final(self).files@.len() == old(self).files@.len() + 1,
            final(self).files@[old(self).files@.len() as int].path@ == path@,
            final(self).files@[old(self).files@.len() as int].text@ == text@,
            forall|i: int|
                0 <= i < old(self).files@.len() ==> final(self).files@[i] == old(self).files@[i],
    {
        self.files.push(SourceFile { path: str_to_chars(path), text: str_to_chars(text) });
    }

    /// The text of the first source with the given path, if any.
    pub fn lookup(&self, path: &Vec<char>) -> (r: Option<Vec<char>>)
        ensures
            match r {
                Some(t) => source_text(self.files@, path@) == Some(t@),
                None => source_text(self.files@, path@) is None,
            },
    {
        let mut i: usize = 0;
        assert(self.files@.skip(0) =~= self.files@);
        while i < self.files.len()
            invariant
                0 <= i <= self.files@.len(),
                source_text(self.files@, path@) == source_text(
                    self.files@.skip(i as int),
                    path@,
                ),
            decreases self.files@.len() - i,
        {
            proof {
                assert(self.files@.skip(i as int)[0] == self.files@[i as int]);
                assert(self.files@.skip(i as int).drop_first() =~= self.files@.skip(i as int + 1));
            }
            if chars_eq(&self.files[i].path, path) {
                return Some(self.files[i].text.clone());
            }
            i = i + 1;
        }
        proof {
            assert(self.files@.skip(i as int) =~= Seq::<SourceFile>::empty());
        }
        None
    }
}

/// How deeply file splicing may nest before the translator stops; a file
/// that splices itself runs into this limit instead of recursing forever.
pub const NESTING_LIMIT: u8 = 16;

/// The preprocessor state: the macro table and the line and file counters
/// that the line and file macros expand to.
pub struct Preproc {
    pub macros: Vec<Macro>,
    pub line: u64,
    pub file: Vec<char>,
}

impl Preproc {
    /// A fresh state for a translation unit: the full predefined macro
    /// set, the line counter at one, and the quoted file name.
    pub fn new(file: &str) -> (r: Preproc)
        ensures
            r.line == 1,
            r.file@ == seq!['"'] + file@ + seq!['"'],
            macro_value(macros_view(r.macros@), "__STDC__"@) == Some("1"@),
            macro_value(macros_view(r.macros@), "__STDC_VERSION__"@) == Some("199901"@),
            macro_value(macros_view(r.macros@), "__RUST__"@) == Some(""@),
            macro_value(macros_view(r.macros@), "__qas_minor__"@) == Some("0"@),
            macro_value(macros_view(r.macros@), "__qas_major__"@) == Some("0"@),
            macro_value(macros_view(r.macros@), "__qas_patch__"@) == Some("0"@),
            exists|y: int, m0: int, d: int|
                0 <= m0 <= 11 && 1 <= d <= 31 && macro_value(macros_view(r.macros@), "__DATE__"@)
                    == Some(#[trigger] date_text(y, m0, d)),
            exists|h: int, mi: int, s: int|
                0 <= h <= 23 && 0 <= mi <= 59 && 0 <= s <= 60 && macro_value(
                    macros_view(r.macros@),
                    "__TIME__"@,
                ) == Some(#[trigger] time_text(h, mi, s)),
    {
        let mut macros: Vec<Macro> = Vec::new();
        Macro::predefine_all(&mut macros);
        let mut quoted: Vec<char> = Vec::new();
        quoted.push('"');
        push_str_chars(&mut quoted, file);
        quoted.push('"');
        assert(quoted@ =~= seq!['"'] + file@ + seq!['"']);
        Preproc { macros, line: 1, file: quoted }
    }

    /// Steps the line counter for one consumed newline.
    fn bump_line(&mut self)
        ensures
            final(self).macros@ == old(self).macros@,
            final(self).file@ == old(self).file@,
            final(self).line == (if old(self).line < u64::MAX {
                old(self).line + 1
            } else {
                old(self).line as int
            }),
    {
        if self.line < u64::MAX {
            self.line = self.line + 1;
        }
    }
}

/// Where a run of spaces and tabs starting at `pos` ends.
pub open spec fn spec_skip_sp(text: Seq<char>, pos: int) -> int
    decreases (if 0 <= pos <= text.len() { text.len() - pos + 1 } else { 0int }),
{
    if 0 <= pos && pos < text.len() && (text[pos] == ' ' || text[pos] == '\t') {
        spec_skip_sp(text, pos + 1)
    } else {
        pos
    }
}

/// The skip stays within the text.
pub proof fn lemma_skip_sp_bounds(text: Seq<char>, pos: int)
    requires
        0 <= pos <= text.len(),
    ensures
        pos <= spec_skip_sp(text, pos) <= text.len(),
    decreases text.len() - pos,
{
    if pos < text.len() && (text[pos] == ' ' || text[pos] == '\t') {
        lemma_skip_sp_bounds(text, pos + 1);
    }
}

/// Skips spaces and tabs.
fn skip_sp(text: &Vec<char>, pos: usize) -> (r: usize)
    requires
        pos <= text@.len(),
    ensures
        pos <= r <= text@.len(),
        r == spec_skip_sp(text@, pos as int),
{
    let mut i = pos;
    while i < text.len() && (text[i] == ' ' || text[i] == '\t')
        invariant
            pos <= i <= text@.len(),
            spec_skip_sp(text@, pos as int) == spec_skip_sp(text@, i as int),
        decreases text@.len() - i,
    {
        i = i + 1;
    }
    i
}

/// Where the run of word characters starting at `pos` ends.
pub open spec fn spec_word_scan(text: Seq<char>, pos: int) -> int
    decreases (if 0 <= pos <= text.len() { text.len() - pos + 1 } else { 0int }),
{
    if 0 <= pos && pos < text.len() && crate::text::spec_is_word_char(text[pos]) {
        spec_word_scan(text, pos + 1)
    } else {
        pos
    }
}

/// Where the identifier starting at `pos` ends: just past its word
/// characters when a letter starts one, else `pos` itself.
pub open spec fn spec_word_end(text: Seq<char>, pos: int) -> int {
    if 0 <= pos && pos < text.len() && crate::text::spec_is_letter(text[pos]) {
        spec_word_scan(text, pos + 1)
    } else {
        pos
    }
}

/// The word scan stays within the text.
pub proof fn lemma_word_scan_bounds(text: Seq<char>, pos: int)
    requires
        0 <= pos <= text.len(),
    ensures
        pos <= spec_word_scan(text, pos) <= text.len(),
    decreases text.len() - pos,
{
    if pos < text.len() && crate::text::spec_is_word_char(text[pos]) {
        lemma_word_scan_bounds(text, pos + 1);
    }
}

/// The word end stays within the text and past a leading letter.
pub proof fn lemma_word_end_bounds(text: Seq<char>, pos: int)
    requires
        0 <= pos <= text.len(),
    ensures
        pos <= spec_word_end(text, pos) <= text.len(),
        0 <= pos < text.len() && crate::text::spec_is_letter(text[pos]) ==> spec_word_end(
            text,
            pos,
        ) > pos,
{
    if pos < text.len() && crate::text::spec_is_letter(text[pos]) {
        lemma_word_scan_bounds(text, pos + 1);
    }
}

/// The identifier text starting at `pos`.
pub open spec fn spec_word_at(text: Seq<char>, pos: int) -> Seq<char> {
    text.subrange(pos, spec_word_end(text, pos))
}

/// Reads an identifier: a letter, then letters and digits.
fn read_word(text: &Vec<char>, pos: usize) -> (r: (Vec<char>, usize))
    requires
        pos <= text@.len(),
    ensures
        pos <= r.1 <= text@.len(),
        r.0@ == text@.subrange(pos as int, r.1 as int),
        pos < text@.len() && crate::text::spec_is_letter(text@[pos as int]) ==> r.1 > pos,
        r.1 == spec_word_end(text@, pos as int),
        r.0@ == spec_word_at(text@, pos as int),
{
    let mut out: Vec<char> = Vec::new();
    let mut i = pos;
    if i < text.len() && is_letter(text[i]) {
        out.push(text[i]);
        i = i + 1;
        while i < text.len() && is_word_char(text[i])
            invariant
                pos <= i <= text@.len(),
                out@ =~= text@.subrange(pos as int, i as int),
                spec_word_scan(text@, pos as int + 1) == spec_word_scan(text@, i as int),
            decreases text@.len() - i,
        {
            out.push(text[i]);
            i = i + 1;
            assert(out@ =~= text@.subrange(pos as int, i as int));
        }
        proof {
            assert(spec_word_scan(text@, i as int) == i as int);
        }
    }
    assert(out@ =~= text@.subrange(pos as int, i as int));
    assert(i as int == spec_word_end(text@, pos as int));
    (out, i)
}

/// The quoted-text scan from just after an opening quote: `\"` stands
/// for a quote; `None` when the text ends before the closing quote.
pub open spec fn spec_quoted_scan(text: Seq<char>, pos: int, acc: Seq<char>) -> Option<
    (Seq<char>, int),
>
    decreases (if 0 <= pos <= text.len() { text.len() - pos + 1 } else { 0int }),
{
    if pos < 0 || pos >= text.len() {
        None
    } else if text[pos] == '"' {
        Some((acc, pos + 1))
    } else if text[pos] == '\\' && pos + 1 < text.len() && text[pos + 1] == '"' {
        spec_quoted_scan(text, pos + 2, acc.push('"'))
    } else {
        spec_quoted_scan(text, pos + 1, acc.push(text[pos]))
    }
}

/// What reading a quoted text at `pos` yields.
pub open spec fn spec_read_quoted(text: Seq<char>, pos: int) -> Option<(Seq<char>, int)> {
    if 0 <= pos && pos < text.len() && text[pos] == '"' {
        spec_quoted_scan(text, pos + 1, Seq::empty())
    } else {
        None
    }
}

/// A successful quoted read moves forward and stays within the text.
pub proof fn lemma_quoted_scan_bounds(text: Seq<char>, pos: int, acc: Seq<char>)
    requires
        0 <= pos <= text.len(),
    ensures
        spec_quoted_scan(text, pos, acc) is Some ==> pos < spec_quoted_scan(
            text,
            pos,
            acc,
        ).unwrap().1 <= text.len(),
    decreases text.len() - pos,
{
    if pos < text.len() && text[pos] != '"' {
        if text[pos] == '\\' && pos + 1 < text.len() && text[pos + 1] == '"' {
            lemma_quoted_scan_bounds(text, pos + 2, acc.push('"'));
        } else {
            lemma_quoted_scan_bounds(text, pos + 1, acc.push(text[pos]));
        }
    }
}

/// A successful quoted read at `pos` moves forward and stays within the
/// text.
pub proof fn lemma_read_quoted_bounds(text: Seq<char>, pos: int)
    requires
        0 <= pos <= text.len(),
    ensures
        spec_read_quoted(text, pos) is Some ==> pos < spec_read_quoted(text, pos).unwrap().1
            <= text.len(),
{
    if pos < text.len() && text[pos] == '"' {
        lemma_quoted_scan_bounds(text, pos + 1, Seq::empty());
    }
}

/// The larger of two positions.
pub open spec fn at_least(a: int, b: int) -> int {
    if a < b {
        b
    } else {
        a
    }
}

/// Reads a quoted text: a `"`, characters with `\"` standing for a
/// quote, and the closing `"`.
pub(crate) fn read_quoted(text: &Vec<char>, pos: usize) -> (r: Result<(Vec<char>, usize), CError>)
    requires
        pos <= text@.len(),
    ensures
        match r {
            Ok(p) => pos < p.1 <= text@.len() && spec_read_quoted(text@, pos as int) == Some(
                (p.0@, p.1 as int),
            ),
            Err(e) => e == CError::Syntax && spec_read_quoted(text@, pos as int) is None,
        },
{
    if pos >= text.len() || text[pos] != '"' {
        return Err(CError::Syntax);
    }
    let mut out: Vec<char> = Vec::new();
    let mut i = pos + 1;
    #[verifier::loop_isolation(false)]
    while i < text.len() && text[i] != '"'
        invariant
            pos < i <= text@.len(),
            spec_quoted_scan(text@, pos as int + 1, Seq::empty()) == spec_quoted_scan(
                text@,
                i as int,
                out@,
            ),
        decreases text@.len() - i,
    {
        if text[i] == '\\' && i + 1 < text.len() && text[i + 1] == '"' {
            out.push('"');
            i = i + 2;
        } else {
            out.push(text[i]);
            i = i + 1;
        }
    }
    if i >= text.len() {
        return Err(CError::Syntax);
    }
    Ok((out, i + 1))
}

/// Where a define replacement ends: the first newline, directive mark, or
/// the end of the text.
pub open spec fn spec_value_end(text: Seq<char>, pos: int) -> int
    decreases (if 0 <= pos <= text.len() { text.len() - pos + 1 } else { 0int }),
{
    if 0 <= pos && pos < text.len() && text[pos] != '\n' && text[pos] != '#' {
        spec_value_end(text, pos + 1)
    } else {
        pos
    }
}

/// The replacement end stays within the text.
pub proof fn lemma_value_end_bounds(text: Seq<char>, pos: int)
    requires
        0 <= pos <= text.len(),
    ensures
        pos <= spec_value_end(text, pos) <= text.len(),
    decreases text.len() - pos,
{
    if pos < text.len() && text[pos] != '\n' && text[pos] != '#' {
        lemma_value_end_bounds(text, pos + 1);
    }
}

/// Reads a define replacement: the rest of the line, verbatim.
fn read_value(text: &Vec<char>, pos: usize) -> (r: (Vec<char>, usize))
    requires
        pos <= text@.len(),
    ensures
        pos <= r.1 <= text@.len(),
        r.1 == spec_value_end(text@, pos as int),
        r.0@ == text@.subrange(pos as int, r.1 as int),
{
    let mut out: Vec<char> = Vec::new();
    let mut k = pos;
    #[verifier::loop_isolation(false)]
    while k < text.len() && text[k] != '\n' && text[k] != '#'
        invariant
            pos <= k <= text@.len(),
            out@ =~= text@.subrange(pos as int, k as int),
            spec_value_end(text@, pos as int) == spec_value_end(text@, k as int),
        decreases text@.len() - k,
    {
        out.push(text[k]);
        k = k + 1;
        assert(out@ =~= text@.subrange(pos as int, k as int));
    }
    (out, k)
}

/// Where a line-number token ends: past its word characters and points.
pub open spec fn spec_numtok_end(text: Seq<char>, pos: int) -> int
    decreases (if 0 <= pos <= text.len() { text.len() - pos + 1 } else { 0int }),
{
    if 0 <= pos && pos < text.len() && (crate::text::spec_is_word_char(text[pos]) || text[pos]
        == '.') {
        spec_numtok_end(text, pos + 1)
    } else {
        pos
    }
}

/// The token end stays within the text.
pub proof fn lemma_numtok_end_bounds(text: Seq<char>, pos: int)
    requires
        0 <= pos <= text.len(),
    ensures
        pos <= spec_numtok_end(text, pos) <= text.len(),
    decreases text.len() - pos,
{
    if pos < text.len() && (crate::text::spec_is_word_char(text[pos]) || text[pos] == '.') {
        lemma_numtok_end_bounds(text, pos + 1);
    }
}

/// Reads a line-number token.
fn read_numtok(text: &Vec<char>, pos: usize) -> (r: (Vec<char>, usize))
    requires
        pos <= text@.len(),
    ensures
        pos <= r.1 <= text@.len(),
        r.1 == spec_numtok_end(text@, pos as int),
        r.0@ == text@.subrange(pos as int, r.1 as int),
{
    let mut out: Vec<char> = Vec::new();
    let mut k = pos;
    #[verifier::loop_isolation(false)]
    while k < text.len() && (is_word_char(text[k]) || text[k] == '.')
        invariant
            pos <= k <= text@.len(),
            out@ =~= text@.subrange(pos as int, k as int),
            spec_numtok_end(text@, pos as int) == spec_numtok_end(text@, k as int),
        decreases text@.len() - k,
    {
        out.push(text[k]);
        k = k + 1;
        assert(out@ =~= text@.subrange(pos as int, k as int));
    }
    (out, k)
}

/// The number of newline characters in a text.
pub open spec fn nl_count(s: Seq<char>) -> int
    decreases s.len(),
{
    if s.len() == 0 {
        0int
    } else {
        nl_count(s.drop_last()) + (if s.last() == '\n' {
            1int
        } else {
            0int
        })
    }
}

/// A run of newlines.
pub open spec fn newlines(n: int) -> Seq<char>
    decreases (if n > 0 { n } else { 0int }),
{
    if n <= 0 {
        Seq::empty()
    } else {
        newlines(n - 1).push('\n')
    }
}

/// The blank lines that stand for an excluded conditional body: two for
/// the construct's own lines, one per newline of the body.
pub open spec fn blank_lines(body: Seq<char>) -> Seq<char> {
    newlines(2 + nl_count(body))
}

/// There are never fewer than zero newlines.
pub proof fn lemma_nl_count_nonneg(s: Seq<char>)
    ensures
        nl_count(s) >= 0,
    decreases s.len(),
{
    if s.len() > 0 {
        lemma_nl_count_nonneg(s.drop_last());
    }
}

/// Appends the blank lines an excluded body leaves behind.
fn push_blank_lines(out: &mut Vec<char>, body: &Vec<char>)
    ensures
        final(out)@ == old(out)@ + blank_lines(body@),
{
    proof {
        lemma_nl_count_nonneg(body@);
    }
    out.push('\n');
    out.push('\n');
    let mut k: usize = 0;
    proof {
        assert(body@.take(0) =~= Seq::<char>::empty());
        assert(newlines(2) == newlines(1).push('\n'));
        assert(newlines(1) == newlines(0).push('\n'));
        assert(newlines(0) =~= Seq::<char>::empty());
        assert(out@ =~= old(out)@ + newlines(2 + nl_count(body@.take(0))));
    }
    #[verifier::loop_isolation(false)]
    while k < body.len()
        invariant
            0 <= k <= body@.len(),
            out@ =~= old(out)@ + newlines(2 + nl_count(body@.take(k as int))),
        decreases body@.len() - k,
    {
        proof {
            assert(body@.take(k as int + 1).drop_last() =~= body@.take(k as int));
            assert(body@.take(k as int + 1).last() == body@[k as int]);
            lemma_nl_count_nonneg(body@.take(k as int));
        }
        if body[k] == '\n' {
            out.push('\n');
        }
        k = k + 1;
        assert(out@ =~= old(out)@ + newlines(2 + nl_count(body@.take(k as int))));
    }
    proof {
        assert(body@.take(k as int) =~= body@);
    }
}

/// The two comment pairs of the supported subset: line comments keep
/// their newline, block comments are removed whole.
pub fn comment_pairs() -> (r: Vec<Comment>)
    ensures
        comments_wf(comments_view(r@)),
        comments_view(r@) == comment_pairs_v(),
{
    let mut cs: Vec<Comment> = Vec::new();
    let line = Comment::new("//", "\n", true);
    let block = Comment::new("/*", "*/", false);
    proof {
        reveal_strlit("//");
        reveal_strlit("\n");
        reveal_strlit("/*");
        reveal_strlit("*/");
    }
    cs.push(line);
    cs.push(block);
    assert(comments_view(cs@) =~~= comment_pairs_v());
    assert(comments_wf(comments_view(cs@))) by {
        assert(comments_view(cs@)[0].begin.len() == 2);
        assert(comments_view(cs@)[1].begin.len() == 2);
        assert(comments_view(cs@)[0].end.len() == 1);
        assert(comments_view(cs@)[1].end.len() == 2);
    }
    cs
}


/// A state as `Preproc::new` makes it: counter at one, the quoted file
/// name, and the fixed predefined macros in place (the date and time
/// macros, which the clock decides, are not pinned here).
pub open spec fn predefined_state(st: PreV, file: Seq<char>) -> bool {
    &&& st.line == 1
    &&& st.file == seq!['"'] + file + seq!['"']
    &&& macro_value(st.macros, "__STDC__"@) == Some("1"@)
    &&& macro_value(st.macros, "__STDC_VERSION__"@) == Some("199901"@)
    &&& macro_value(st.macros, "__RUST__"@) == Some(""@)
    &&& macro_value(st.macros, "__qas_minor__"@) == Some("0"@)
    &&& macro_value(st.macros, "__qas_major__"@) == Some("0"@)
    &&& macro_value(st.macros, "__qas_patch__"@) == Some("0"@)
}

/// The mathematical value of the preprocessor state.
#[verifier::ext_equal]
pub struct PreV {
    pub macros: Seq<MacroV>,
    pub line: int,
    pub file: Seq<char>,
}

/// The state as a value.
pub open spec fn pre_view(st: Preproc) -> PreV {
    PreV { macros: macros_view(st.macros@), line: st.line as int, file: st.file@ }
}

/// The state after one consumed newline: the counter steps, saturating at
/// its width.
pub open spec fn spec_bump(st: PreV) -> PreV {
    PreV {
        line: if st.line < u64::MAX {
            st.line + 1
        } else {
            st.line
        },
        ..st
    }
}

/// The delimiter pairs of the supported subset, as values.
pub open spec fn comment_pairs_v() -> Seq<CommentV> {
    seq![
        CommentV { begin: "//"@, end: "\n"@, save_end: true },
        CommentV { begin: "/*"@, end: "*/"@, save_end: false },
    ]
}

/// The splicing directive's keyword.
pub open spec fn splice_word() -> Seq<char> {
    seq!['i', 'n', 'c', 'l', 'u', 'd', 'e']
}

/// What one block of preprocessor text becomes, scanning from `pos`: the
/// emitted text, the state as the directives and newlines leave it, and
/// the position where the scan stops (the end of the text, or the `#` of
/// a directive that closes or continues an enclosing conditional).
pub open spec fn spec_block(
    sources: Seq<SourceFile>,
    text: Seq<char>,
    pos: int,
    st: PreV,
    depth: int,
) -> Result<(Seq<char>, PreV, int), CError>
    decreases depth, (if 0 <= pos <= text.len() { text.len() - pos + 1 } else { 0int }), 0int
    via spec_block_dec
{
    if pos < 0 || pos >= text.len() {
        Ok((Seq::empty(), st, if pos < 0 { pos } else { pos }))
    } else {
        let c = text[pos];
        if c == '#' {
            let q = spec_skip_sp(text, pos + 1);
            if q < text.len() && text[q] == '\n' {
                spec_block_step(sources, text, q + 1, spec_bump(st), depth, seq!['\n'])
            } else {
                let w = spec_word_at(text, q);
                let q2 = spec_word_end(text, q);
                if w.len() == 0 {
                    Err(CError::Syntax)
                } else if w == "else"@ || w == "endif"@ || w == "elif"@ {
                    Ok((Seq::empty(), st, pos))
                } else if w == "define"@ {
                    let q3 = spec_skip_sp(text, q2);
                    if q3 == q2 {
                        Err(CError::Syntax)
                    } else {
                        let name = spec_word_at(text, q3);
                        let q4 = spec_word_end(text, q3);
                        if name.len() == 0 {
                            Err(CError::Syntax)
                        } else {
                            let q5 = spec_skip_sp(text, q4);
                            if q5 < text.len() && text[q5] == '\n' {
                                spec_block_step(
                                    sources,
                                    text,
                                    q5 + 1,
                                    spec_bump(
                                        PreV {
                                            macros: spec_added(st.macros, name, Seq::empty()),
                                            ..st
                                        },
                                    ),
                                    depth,
                                    seq!['\n'],
                                )
                            } else if q5 == q4 || q5 >= text.len() {
                                Err(CError::Syntax)
                            } else {
                                let vend = spec_value_end(text, q5);
                                if vend >= text.len() || text[vend] == '#' {
                                    Err(CError::Syntax)
                                } else {
                                    let value = text.subrange(q5, vend);
                                    spec_block_step(
                                        sources,
                                        text,
                                        vend + 1,
                                        spec_bump(
                                            PreV {
                                                macros: spec_added(st.macros, name, value),
                                                ..st
                                            },
                                        ),
                                        depth,
                                        seq!['\n'],
                                    )
                                }
                            }
                        }
                    }
                } else if w == "undef"@ {
                    let q3 = spec_skip_sp(text, q2);
                    if q3 == q2 {
                        Err(CError::Syntax)
                    } else {
                        let name = spec_word_at(text, q3);
                        let q4 = spec_word_end(text, q3);
                        if name.len() == 0 {
                            Err(CError::Syntax)
                        } else if q4 >= text.len() || text[q4] != '\n' {
                            Err(CError::Syntax)
                        } else {
                            spec_block_step(
                                sources,
                                text,
                                q4 + 1,
                                spec_bump(
                                    PreV { macros: macro_removed(st.macros, name), ..st },
                                ),
                                depth,
                                seq!['\n'],
                            )
                        }
                    }
                } else if w == splice_word() {
                    let q3 = spec_skip_sp(text, q2);
                    match spec_read_quoted(text, q3) {
                        None => Err(CError::Syntax),
                        Some(p) => {
                            let q5 = spec_skip_sp(text, p.1);
                            if q5 >= text.len() || text[q5] != '\n' {
                                Err(CError::Syntax)
                            } else if depth <= 0 {
                                Err(CError::TooDeep)
                            } else {
                                match source_text(sources, p.0) {
                                    None => Err(CError::MissingSource),
                                    Some(t) => match spec_pre_file(sources, t, st, depth - 1) {
                                        Err(e) => Err(e),
                                        Ok(sp) => spec_block_step(
                                            sources,
                                            text,
                                            q5 + 1,
                                            spec_bump(sp.1),
                                            depth,
                                            seq!['\n'] + sp.0,
                                        ),
                                    },
                                }
                            }
                        },
                    }
                } else if w == "ifdef"@ || w == "ifndef"@ {
                    let q3 = spec_skip_sp(text, q2);
                    if q3 == q2 {
                        Err(CError::Syntax)
                    } else {
                        let name = spec_word_at(text, q3);
                        let q4 = spec_word_end(text, q3);
                        if name.len() == 0 {
                            Err(CError::Syntax)
                        } else {
                            let q5 = spec_skip_sp(text, q4);
                            if q5 >= text.len() || text[q5] != '\n' {
                                Err(CError::Syntax)
                            } else {
                                let defined = macro_value(st.macros, name) is Some;
                                let cond = if w == "ifdef"@ {
                                    defined
                                } else {
                                    !defined
                                };
                                match spec_block(sources, text, q5 + 1, spec_bump(st), depth) {
                                    Err(e) => Err(e),
                                    Ok(b) => spec_after_body(
                                        sources,
                                        text,
                                        depth,
                                        cond,
                                        b.0,
                                        b.1,
                                        at_least(b.2, q5 + 1),
                                    ),
                                }
                            }
                        }
                    }
                } else if w == "line"@ {
                    let q3 = spec_skip_sp(text, q2);
                    if q3 == q2 {
                        Err(CError::Syntax)
                    } else {
                        let nend = spec_numtok_end(text, q3);
                        let num = text.subrange(q3, nend);
                        if !(num.len() > 0 && crate::text::all_digits(num) && crate::text::dec_val(
                            num,
                        ) <= u64::MAX) {
                            Err(CError::WrongLineNumber)
                        } else {
                            let k2 = spec_skip_sp(text, nend);
                            if k2 < text.len() && text[k2] == '"' {
                                match spec_read_quoted(text, k2) {
                                    None => Err(CError::Syntax),
                                    Some(p) => {
                                        let k2b = spec_skip_sp(text, p.1);
                                        if k2b >= text.len() || text[k2b] != '\n' {
                                            Err(CError::Syntax)
                                        } else {
                                            spec_block_step(
                                                sources,
                                                text,
                                                k2b + 1,
                                                PreV {
                                                    macros: st.macros,
                                                    line: crate::text::dec_val(num) as int,
                                                    file: seq!['"'] + p.0 + seq!['"'],
                                                },
                                                depth,
                                                seq!['\n'],
                                            )
                                        }
                                    },
                                }
                            } else if k2 >= text.len() || text[k2] != '\n' {
                                Err(CError::Syntax)
                            } else {
                                spec_block_step(
                                    sources,
                                    text,
                                    k2 + 1,
                                    PreV {
                                        macros: st.macros,
                                        line: crate::text::dec_val(num) as int,
                                        file: st.file,
                                    },
                                    depth,
                                    seq!['\n'],
                                )
                            }
                        }
                    }
                } else {
                    Err(CError::Syntax)
                }
            }
        } else if crate::text::spec_is_letter(c) {
            let w = spec_word_at(text, pos);
            let q = spec_word_end(text, pos);
            let piece = if w == "__LINE__"@ {
                crate::text::dec_rep(st.line as nat)
            } else if w == "__FILE__"@ {
                st.file
            } else {
                match macro_value(st.macros, w) {
                    Some(v) => v,
                    None => w,
                }
            };
            spec_block_step(sources, text, q, st, depth, piece)
        } else if c == '\n' {
            spec_block_step(sources, text, pos + 1, spec_bump(st), depth, seq!['\n'])
        } else {
            spec_block_step(sources, text, pos + 1, st, depth, seq![c])
        }
    }
}

/// The close of a conditional construct after its first block: the
/// optional `else` block, the `endif`, and the chosen output — the taken
/// branch spliced between newlines, or the blank lines that keep later
/// line numbers aligned.
pub open spec fn spec_after_body(
    sources: Seq<SourceFile>,
    text: Seq<char>,
    depth: int,
    cond: bool,
    body: Seq<char>,
    st: PreV,
    p1: int,
) -> Result<(Seq<char>, PreV, int), CError>
    decreases depth, (if 0 <= p1 <= text.len() { text.len() - p1 + 1 } else { 0int }), 2int
    via spec_after_body_dec
{
    if p1 < 0 || p1 >= text.len() || text[p1] != '#' {
        Err(CError::Syntax)
    } else {
        let w1 = spec_skip_sp(text, p1 + 1);
        let kw = spec_word_at(text, w1);
        let w2 = spec_word_end(text, w1);
        if kw == "else"@ {
            let w3 = spec_skip_sp(text, w2);
            if w3 >= text.len() || text[w3] != '\n' {
                Err(CError::Syntax)
            } else {
                match spec_block(sources, text, w3 + 1, spec_bump(st), depth) {
                    Err(e) => Err(e),
                    Ok(eb) => {
                        let pe = at_least(eb.2, w3 + 1);
                        if pe >= text.len() || text[pe] != '#' {
                            Err(CError::Syntax)
                        } else {
                            let w4 = spec_skip_sp(text, pe + 1);
                            let kw2 = spec_word_at(text, w4);
                            let w5 = spec_word_end(text, w4);
                            if kw2 != "endif"@ {
                                Err(CError::Syntax)
                            } else {
                                let w6 = spec_skip_sp(text, w5);
                                if w6 >= text.len() || text[w6] != '\n' {
                                    Err(CError::Syntax)
                                } else {
                                    let piece = if cond {
                                        seq!['\n'] + body + seq!['\n']
                                    } else {
                                        seq!['\n', '\n'] + eb.0 + seq!['\n']
                                    };
                                    spec_block_step(
                                        sources,
                                        text,
                                        w6 + 1,
                                        spec_bump(eb.1),
                                        depth,
                                        piece,
                                    )
                                }
                            }
                        }
                    },
                }
            }
        } else if kw != "endif"@ {
            Err(CError::Syntax)
        } else {
            let w6 = spec_skip_sp(text, w2);
            if w6 >= text.len() || text[w6] != '\n' {
                Err(CError::Syntax)
            } else {
                let piece = if cond {
                    seq!['\n'] + body + seq!['\n']
                } else {
                    blank_lines(body)
                };
                spec_block_step(sources, text, w6 + 1, spec_bump(st), depth, piece)
            }
        }
    }
}

/// The rest of the block after one item: the item's output, then
/// whatever the remaining text becomes.
pub open spec fn spec_block_step(
    sources: Seq<SourceFile>,
    text: Seq<char>,
    pos: int,
    st: PreV,
    depth: int,
    piece: Seq<char>,
) -> Result<(Seq<char>, PreV, int), CError>
    decreases depth, (if 0 <= pos <= text.len() { text.len() - pos + 1 } else { 0int }), 1int
{
    match spec_block(sources, text, pos, st, depth) {
        Ok(r) => Ok((piece + r.0, r.1, r.2)),
        Err(e) => Err(e),
    }
}

/// What preprocessing one file yields: comments stripped, the whole text
/// run as one block, and a conditional left open refused.
pub open spec fn spec_pre_file(
    sources: Seq<SourceFile>,
    code: Seq<char>,
    st: PreV,
    depth: int,
) -> Result<(Seq<char>, PreV), CError>
    decreases depth, code.len() + 2, 0int
    via spec_pre_file_dec
{
    let stripped = strip_from(comment_pairs_v(), code, 0);
    match spec_block(sources, stripped, 0, st, depth) {
        Err(e) => Err(e),
        Ok(r) => if r.2 == stripped.len() {
            Ok((r.0, r.1))
        } else {
            Err(CError::Syntax)
        },
    }
}

#[via_fn]
proof fn spec_block_dec(sources: Seq<SourceFile>, text: Seq<char>, pos: int, st: PreV, depth: int) {
    if 0 <= pos && pos < text.len() {
        lemma_word_end_bounds(text, pos);
        lemma_skip_sp_bounds(text, pos + 1);
        let q = spec_skip_sp(text, pos + 1);
        lemma_word_end_bounds(text, q);
        let q2 = spec_word_end(text, q);
        lemma_skip_sp_bounds(text, q2);
        let q3 = spec_skip_sp(text, q2);
        lemma_word_end_bounds(text, q3);
        let q4 = spec_word_end(text, q3);
        lemma_skip_sp_bounds(text, q4);
        let q5 = spec_skip_sp(text, q4);
        lemma_value_end_bounds(text, q5);
        lemma_numtok_end_bounds(text, q3);
        let nend = spec_numtok_end(text, q3);
        lemma_skip_sp_bounds(text, nend);
        let k2 = spec_skip_sp(text, nend);
        lemma_read_quoted_bounds(text, k2);
        match spec_read_quoted(text, k2) {
            Some(p) => {
                lemma_skip_sp_bounds(text, p.1);
            },
            None => {},
        }
        lemma_read_quoted_bounds(text, q3);
        match spec_read_quoted(text, q3) {
            Some(p) => {
                lemma_skip_sp_bounds(text, p.1);
            },
            None => {},
        }
    }
}

#[via_fn]
proof fn spec_after_body_dec(
    sources: Seq<SourceFile>,
    text: Seq<char>,
    depth: int,
    cond: bool,
    body: Seq<char>,
    st: PreV,
    p1: int,
) {
    if 0 <= p1 && p1 < text.len() {
        lemma_skip_sp_bounds(text, p1 + 1);
        let w1 = spec_skip_sp(text, p1 + 1);
        lemma_word_end_bounds(text, w1);
        let w2 = spec_word_end(text, w1);
        lemma_skip_sp_bounds(text, w2);
        let w3 = spec_skip_sp(text, w2);
        assert forall|pe: int| w3 + 1 <= pe && pe < text.len() implies {
            &&& pe + 1 <= #[trigger] spec_skip_sp(text, pe + 1) <= text.len()
            &&& spec_skip_sp(text, pe + 1) <= spec_word_end(
                text,
                spec_skip_sp(text, pe + 1),
            ) <= text.len()
            &&& spec_word_end(text, spec_skip_sp(text, pe + 1)) <= spec_skip_sp(
                text,
                spec_word_end(text, spec_skip_sp(text, pe + 1)),
            ) <= text.len()
        } by {
            lemma_skip_sp_bounds(text, pe + 1);
            lemma_word_end_bounds(text, spec_skip_sp(text, pe + 1));
            lemma_skip_sp_bounds(text, spec_word_end(text, spec_skip_sp(text, pe + 1)));
        }
    }
}

#[via_fn]
proof fn spec_pre_file_dec(sources: Seq<SourceFile>, code: Seq<char>, st: PreV, depth: int) {
    crate::comment::lemma_strip_len(comment_pairs_v(), code, 0);
}

/// Runs one block of preprocessor text: directives take effect, macro
/// names substitute, every consumed newline steps the line counter once.
/// The scan stops in front of a directive that closes or continues an
/// enclosing conditional, or at the end of the text.
#[verifier::rlimit(80)]
fn process_block(
    st: &mut Preproc,
    sources: &SourceSet,
    text: &Vec<char>,
    start_pos: usize,
    depth: u8,
) -> (r: Result<(Vec<char>, usize), CError>)
    requires
        start_pos <= text@.len(),
    ensures
        match r {
            Ok(p) => start_pos <= p.1 <= text@.len() && spec_block(
                sources.files@,
                text@,
                start_pos as int,
                pre_view(*old(st)),
                depth as int,
            ) == Ok::<(Seq<char>, PreV, int), CError>((p.0@, pre_view(*final(st)), p.1 as int)),
            Err(e) => spec_block(
                sources.files@,
                text@,
                start_pos as int,
                pre_view(*old(st)),
                depth as int,
            ) == Err::<(Seq<char>, PreV, int), CError>(e),
        },
    decreases depth, text@.len() - start_pos,
{
    let ghost srcv = sources.files@;
    let ghost d = depth as int;
    let ghost st0 = pre_view(*st);
    let ghost pos0 = start_pos as int;
    let mut out: Vec<char> = Vec::new();
    let mut pos = start_pos;
    proof {
        let inner = spec_block(srcv, text@, pos0, st0, d);
        match inner {
            Ok(rr) => {
                assert(Seq::<char>::empty() + rr.0 =~= rr.0);
            },
            Err(_) => {},
        }
    }
    #[verifier::loop_isolation(false)]
    while pos < text.len()
        invariant
            start_pos <= pos <= text@.len(),
            spec_block(srcv, text@, pos0, st0, d) == (match spec_block(
                srcv,
                text@,
                pos as int,
                pre_view(*st),
                d,
            ) {
                Ok(rr) => Ok::<(Seq<char>, PreV, int), CError>((out@ + rr.0, rr.1, rr.2)),
                Err(e) => Err::<(Seq<char>, PreV, int), CError>(e),
            }),
        decreases text@.len() - pos,
    {
        let ghost posa = pos as int;
        let ghost sta = pre_view(*st);
        let ghost outa = out@;
        let c = text[pos];
        if c == '#' {
            let hash = pos;
            let q = skip_sp(text, pos + 1);
            if q < text.len() && text[q] == '\n' {
                out.push('\n');
                st.bump_line();
                pos = q + 1;
                proof {
                    assert(out@ =~= outa + (seq!['\n']));
                    step_invariant(srcv, text@, d, st0, pos0, posa, sta, outa,
                        pos as int, pre_view(*st), out@, seq!['\n']);
                }
                continue ;
            }
            let (word, q2) = read_word(text, q);
            if word.len() == 0 {
                proof {
                    assert(spec_block(srcv, text@, posa, sta, d) == Err::<(Seq<char>, PreV, int), CError>(CError::Syntax));
                }
                return Err(CError::Syntax);
            }
            if word_is(&word, "else") || word_is(&word, "endif") || word_is(&word, "elif") {
                proof {
                    assert(spec_block(srcv, text@, posa, sta, d) == Ok::<
                        (Seq<char>, PreV, int),
                        CError,
                    >((Seq::empty(), sta, posa)));
                    assert(out@ + Seq::<char>::empty() =~= out@);
                }
                return Ok((out, hash));
            }
            if word_is(&word, "define") {
                let q3 = skip_sp(text, q2);
                if q3 == q2 {
                    proof {
                        assert(spec_block(srcv, text@, posa, sta, d) == Err::<(Seq<char>, PreV, int), CError>(CError::Syntax));
                    }
                    return Err(CError::Syntax);
                }
                let (name, q4) = read_word(text, q3);
                if name.len() == 0 {
                    proof {
                        assert(spec_block(srcv, text@, posa, sta, d) == Err::<(Seq<char>, PreV, int), CError>(CError::Syntax));
                    }
                    return Err(CError::Syntax);
                }
                let q5 = skip_sp(text, q4);
                if q5 < text.len() && text[q5] == '\n' {
                    Macro::add(&mut st.macros, &name, &Vec::new());
                    out.push('\n');
                    st.bump_line();
                    pos = q5 + 1;
                    proof {
                        assert(out@ =~= outa + (seq!['\n']));
                        step_invariant(srcv, text@, d, st0, pos0, posa, sta, outa,
                            pos as int, pre_view(*st), out@, seq!['\n']);
                    }
                    continue ;
                }
                if q5 == q4 || q5 >= text.len() {
                    proof {
                        assert(spec_block(srcv, text@, posa, sta, d) == Err::<(Seq<char>, PreV, int), CError>(CError::Syntax));
                    }
                    return Err(CError::Syntax);
                }
                let (value, k) = read_value(text, q5);
                if k >= text.len() || text[k] == '#' {
                    proof {
                        assert(spec_block(srcv, text@, posa, sta, d) == Err::<(Seq<char>, PreV, int), CError>(CError::Syntax));
                    }
                    return Err(CError::Syntax);
                }
                Macro::add(&mut st.macros, &name, &value);
                out.push('\n');
                st.bump_line();
                pos = k + 1;
                proof {
                    assert(out@ =~= outa + (seq!['\n']));
                    step_invariant(srcv, text@, d, st0, pos0, posa, sta, outa,
                        pos as int, pre_view(*st), out@, seq!['\n']);
                }
                continue ;
            }
            if word_is(&word, "undef") {
                let q3 = skip_sp(text, q2);
                if q3 == q2 {
                    proof {
                        assert(spec_block(srcv, text@, posa, sta, d) == Err::<(Seq<char>, PreV, int), CError>(CError::Syntax));
                    }
                    return Err(CError::Syntax);
                }
                let (name, q4) = read_word(text, q3);
                if name.len() == 0 {
                    proof {
                        assert(spec_block(srcv, text@, posa, sta, d) == Err::<(Seq<char>, PreV, int), CError>(CError::Syntax));
                    }
                    return Err(CError::Syntax);
                }
                if q4 >= text.len() || text[q4] != '\n' {
                    proof {
                        assert(spec_block(srcv, text@, posa, sta, d) == Err::<(Seq<char>, PreV, int), CError>(CError::Syntax));
                    }
                    return Err(CError::Syntax);
                }
                Macro::remove(&mut st.macros, &name);
                out.push('\n');
                st.bump_line();
                pos = q4 + 1;
                proof {
                    assert(out@ =~= outa + (seq!['\n']));
                    step_invariant(srcv, text@, d, st0, pos0, posa, sta, outa,
                        pos as int, pre_view(*st), out@, seq!['\n']);
                }
                continue ;
            }
            let spl: Vec<char> = vec!['i', 'n', 'c', 'l', 'u', 'd', 'e'];
            proof {
                assert(spl@ =~= splice_word());
            }
            if chars_eq(&word, &spl) {
                let q3 = skip_sp(text, q2);
                let (path, q4) = match read_quoted(text, q3) {
                    Ok(p) => p,
                    Err(e) => {
                        proof {
                            assert(spec_block(srcv, text@, posa, sta, d) == Err::<(Seq<char>, PreV, int), CError>(e));
                        }
                        return Err(e);
                    },
                };
                let q5 = skip_sp(text, q4);
                if q5 >= text.len() || text[q5] != '\n' {
                    proof {
                        assert(spec_block(srcv, text@, posa, sta, d) == Err::<(Seq<char>, PreV, int), CError>(CError::Syntax));
                    }
                    return Err(CError::Syntax);
                }
                if depth == 0 {
                    proof {
                        assert(spec_block(srcv, text@, posa, sta, d) == Err::<(Seq<char>, PreV, int), CError>(CError::TooDeep));
                    }
                    return Err(CError::TooDeep);
                }
                let spliced = match sources.lookup(&path) {
                    Some(t) => t,
                    None => {
                        proof {
                            assert(spec_block(srcv, text@, posa, sta, d) == Err::<(Seq<char>, PreV, int), CError>(CError::MissingSource));
                        }
                        return Err(CError::MissingSource);
                    },
                };
                let ghost splv = spliced@;
                let sub = match preprocess_file(st, sources, spliced, depth - 1) {
                    Ok(s) => s,
                    Err(e) => {
                        proof {
                            assert(source_text(srcv, path@) == Some(splv));
                            assert(spec_pre_file(srcv, splv, sta, d - 1) == Err::<
                                (Seq<char>, PreV),
                                CError,
                            >(e));
                            assert(spec_block(srcv, text@, posa, sta, d) == Err::<(Seq<char>, PreV, int), CError>(e));
                        }
                        return Err(e);
                    },
                };
                let ghost stf = pre_view(*st);
                out.push('\n');
                push_all(&mut out, &sub);
                st.bump_line();
                pos = q5 + 1;
                proof {
                    assert(source_text(srcv, path@) == Some(splv));
                    assert(spec_pre_file(srcv, splv, sta, d - 1) == Ok::<
                        (Seq<char>, PreV),
                        CError,
                    >((sub@, stf)));
                    assert(pre_view(*st) =~= spec_bump(stf));
                    assert(spec_block(srcv, text@, posa, sta, d) == spec_block_step(
                        srcv,
                        text@,
                        pos as int,
                        pre_view(*st),
                        d,
                        seq!['\n'] + sub@,
                    ));
                }
                proof {
                    assert(out@ =~= outa + (seq!['\n'] + sub@));
                    assert(out@ =~= outa + (seq!['\n'] + sub@));
                    step_invariant(srcv, text@, d, st0, pos0, posa, sta, outa,
                        pos as int, pre_view(*st), out@, seq!['\n'] + sub@);
                }
                continue ;
            }
            let is_ifdef = word_is(&word, "ifdef");
            let is_ifndef = word_is(&word, "ifndef");
            if is_ifdef || is_ifndef {
                let q3 = skip_sp(text, q2);
                if q3 == q2 {
                    proof {
                        assert(spec_block(srcv, text@, posa, sta, d) == Err::<(Seq<char>, PreV, int), CError>(CError::Syntax));
                    }
                    return Err(CError::Syntax);
                }
                let (name, q4) = read_word(text, q3);
                if name.len() == 0 {
                    proof {
                        assert(spec_block(srcv, text@, posa, sta, d) == Err::<(Seq<char>, PreV, int), CError>(CError::Syntax));
                    }
                    return Err(CError::Syntax);
                }
                let q5 = skip_sp(text, q4);
                if q5 >= text.len() || text[q5] != '\n' {
                    proof {
                        assert(spec_block(srcv, text@, posa, sta, d) == Err::<(Seq<char>, PreV, int), CError>(CError::Syntax));
                    }
                    return Err(CError::Syntax);
                }
                let defined = Macro::is_defined(&st.macros, &name);
                let cond = if is_ifdef {
                    defined
                } else {
                    !defined
                };
                st.bump_line();
                let ghost stb = pre_view(*st);
                let (body, p1) = match process_block(st, sources, text, q5 + 1, depth) {
                    Ok(p) => p,
                    Err(e) => {
                        proof {
                            assert(spec_block(srcv, text@, posa, sta, d) == Err::<(Seq<char>, PreV, int), CError>(e));
                        }
                        return Err(e);
                    },
                };
                let ghost stc = pre_view(*st);
                let ghost p1c = p1 as int;
                proof {
                    assert(at_least(p1c, q5 + 1) == p1c);
                    assert(spec_block(srcv, text@, posa, sta, d) == spec_after_body(
                        srcv, text@, d, cond, body@, stc, p1c));
                }
                if p1 >= text.len() || text[p1] != '#' {
                    proof {
                        assert(spec_block(srcv, text@, posa, sta, d) == Err::<(Seq<char>, PreV, int), CError>(CError::Syntax));
                    }
                    return Err(CError::Syntax);
                }
                let w1 = skip_sp(text, p1 + 1);
                let (kw, w2) = read_word(text, w1);
                let mut alt: Option<Vec<char>> = None;
                let mut p2 = w2;
                let ghost mut std2 = stc;
                if word_is(&kw, "else") {
                    let w3 = skip_sp(text, w2);
                    if w3 >= text.len() || text[w3] != '\n' {
                        proof {
                            assert(spec_block(srcv, text@, posa, sta, d) == Err::<(Seq<char>, PreV, int), CError>(CError::Syntax));
                        }
                        return Err(CError::Syntax);
                    }
                    st.bump_line();
                    let ghost std0 = pre_view(*st);
                    let (ebody, pe) = match process_block(st, sources, text, w3 + 1, depth) {
                        Ok(p) => p,
                        Err(e) => {
                            proof {
                                assert(spec_block(srcv, text@, posa, sta, d) == Err::<(Seq<char>, PreV, int), CError>(e));
                            }
                            return Err(e);
                        },
                    };
                    proof {
                        std2 = pre_view(*st);
                        assert(at_least(pe as int, w3 + 1) == pe as int);
                    }
                    alt = Some(ebody);
                    if pe >= text.len() || text[pe] != '#' {
                        proof {
                            assert(spec_block(srcv, text@, posa, sta, d) == Err::<(Seq<char>, PreV, int), CError>(CError::Syntax));
                        }
                        return Err(CError::Syntax);
                    }
                    let w4 = skip_sp(text, pe + 1);
                    let (kw2, w5) = read_word(text, w4);
                    if !word_is(&kw2, "endif") {
                        proof {
                            assert(spec_block(srcv, text@, posa, sta, d) == Err::<(Seq<char>, PreV, int), CError>(CError::Syntax));
                        }
                        return Err(CError::Syntax);
                    }
                    p2 = w5;
                } else if !word_is(&kw, "endif") {
                    proof {
                        assert(spec_block(srcv, text@, posa, sta, d) == Err::<(Seq<char>, PreV, int), CError>(CError::Syntax));
                    }
                    return Err(CError::Syntax);
                }
                let w6 = skip_sp(text, p2);
                if w6 >= text.len() || text[w6] != '\n' {
                    proof {
                        assert(spec_block(srcv, text@, posa, sta, d) == Err::<(Seq<char>, PreV, int), CError>(CError::Syntax));
                    }
                    return Err(CError::Syntax);
                }
                st.bump_line();
                let ghost piece: Seq<char>;
                if cond {
                    out.push('\n');
                    push_all(&mut out, &body);
                    out.push('\n');
                    proof {
                        piece = seq!['\n'] + body@ + seq!['\n'];
                        assert(out@ =~= outa + piece);
                    }
                } else {
                    match alt {
                        Some(ebody) => {
                            out.push('\n');
                            out.push('\n');
                            push_all(&mut out, &ebody);
                            out.push('\n');
                            proof {
                                piece = seq!['\n', '\n'] + ebody@ + seq!['\n'];
                                assert(out@ =~= outa + piece);
                            }
                        },
                        None => {
                            push_blank_lines(&mut out, &body);
                            proof {
                                piece = blank_lines(body@);
                                assert(out@ =~= outa + piece);
                            }
                        },
                    }
                }
                pos = w6 + 1;
                proof {
                    assert(spec_after_body(srcv, text@, d, cond, body@, stc, p1c)
                        == spec_block_step(srcv, text@, pos as int, pre_view(*st), d, piece));
                    assert(out@ =~= outa + (piece));
                    step_invariant(srcv, text@, d, st0, pos0, posa, sta, outa,
                        pos as int, pre_view(*st), out@, piece);
                }
                continue ;
            }
            if word_is(&word, "line") {
                let q3 = skip_sp(text, q2);
                if q3 == q2 {
                    proof {
                        assert(spec_block(srcv, text@, posa, sta, d) == Err::<(Seq<char>, PreV, int), CError>(CError::Syntax));
                    }
                    return Err(CError::Syntax);
                }
                let (num, k) = read_numtok(text, q3);
                let parsed = match parse_u64(&num) {
                    Some(v) => v,
                    None => {
                        proof {
                            assert(spec_block(srcv, text@, posa, sta, d) == Err::<(Seq<char>, PreV, int), CError>(CError::WrongLineNumber));
                        }
                        return Err(CError::WrongLineNumber);
                    },
                };
                let mut k2 = skip_sp(text, k);
                if k2 < text.len() && text[k2] == '"' {
                    let (fname, k3) = match read_quoted(text, k2) {
                        Ok(p) => p,
                        Err(e) => {
                            proof {
                                assert(spec_block(srcv, text@, posa, sta, d) == Err::<(Seq<char>, PreV, int), CError>(e));
                            }
                            return Err(e);
                        },
                    };
                    let mut quoted: Vec<char> = Vec::new();
                    quoted.push('"');
                    push_all(&mut quoted, &fname);
                    quoted.push('"');
                    st.file = quoted;
                    k2 = skip_sp(text, k3);
                    if k2 >= text.len() || text[k2] != '\n' {
                        proof {
                            assert(spec_block(srcv, text@, posa, sta, d) == Err::<(Seq<char>, PreV, int), CError>(CError::Syntax));
                        }
                        return Err(CError::Syntax);
                    }
                    out.push('\n');
                    st.line = parsed;
                    pos = k2 + 1;
                    proof {
                        assert(pre_view(*st).file =~= seq!['"'] + fname@ + seq!['"']);
                        assert(out@ =~= outa + (seq!['\n']));
                        step_invariant(srcv, text@, d, st0, pos0, posa, sta, outa,
                            pos as int, pre_view(*st), out@, seq!['\n']);
                    }
                    continue ;
                }
                if k2 >= text.len() || text[k2] != '\n' {
                    proof {
                        assert(spec_block(srcv, text@, posa, sta, d) == Err::<(Seq<char>, PreV, int), CError>(CError::Syntax));
                    }
                    return Err(CError::Syntax);
                }
                out.push('\n');
                st.line = parsed;
                pos = k2 + 1;
                proof {
                    assert(out@ =~= outa + (seq!['\n']));
                    step_invariant(srcv, text@, d, st0, pos0, posa, sta, outa,
                        pos as int, pre_view(*st), out@, seq!['\n']);
                }
                continue ;
            }
            proof {
                assert(spec_block(srcv, text@, posa, sta, d) == Err::<(Seq<char>, PreV, int), CError>(CError::Syntax));
            }
            return Err(CError::Syntax);
        } else if is_letter(c) {
            let (word, q) = read_word(text, pos);
            let ghost piece: Seq<char>;
            if word_is(&word, "__LINE__") {
                let mut digits = u64_dec(st.line);
                proof {
                    piece = digits@;
                }
                out.append(&mut digits);
            } else if word_is(&word, "__FILE__") {
                let mut f = st.file.clone();
                proof {
                    piece = f@;
                }
                out.append(&mut f);
            } else {
                match Macro::find(&st.macros, &word) {
                    Some(v) => {
                        push_all(&mut out, &v);
                        proof {
                            piece = v@;
                        }
                    },
                    None => {
                        push_all(&mut out, &word);
                        proof {
                            piece = word@;
                        }
                    },
                }
            }
            assert(q > pos);
            pos = q;
            proof {
                assert(out@ =~= outa + piece);
                assert(out@ =~= outa + (piece));
                step_invariant(srcv, text@, d, st0, pos0, posa, sta, outa,
                    pos as int, pre_view(*st), out@, piece);
            }
        } else if c == '\n' {
            out.push('\n');
            st.bump_line();
            pos = pos + 1;
            proof {
                assert(out@ =~= outa + (seq!['\n']));
                step_invariant(srcv, text@, d, st0, pos0, posa, sta, outa,
                    pos as int, pre_view(*st), out@, seq!['\n']);
            }
        } else {
            out.push(c);
            pos = pos + 1;
            proof {
                assert(out@ =~= outa + (seq![c]));
                step_invariant(srcv, text@, d, st0, pos0, posa, sta, outa,
                    pos as int, pre_view(*st), out@, seq![c]);
            }
        }
    }
    proof {
        assert(spec_block(srcv, text@, pos as int, pre_view(*st), d) == Ok::<
            (Seq<char>, PreV, int),
            CError,
        >((Seq::empty(), pre_view(*st), pos as int)));
        assert(out@ + Seq::<char>::empty() =~= out@);
    }
    Ok((out, pos))
}

/// One loop step keeps the block correspondence: the item's piece joins
/// the output and the scan resumes at the new position and state.
proof fn step_invariant(
    srcv: Seq<SourceFile>,
    text: Seq<char>,
    d: int,
    st0: PreV,
    pos0: int,
    posa: int,
    sta: PreV,
    outa: Seq<char>,
    posn: int,
    stn: PreV,
    outn: Seq<char>,
    piece: Seq<char>,
)
    requires
        spec_block(srcv, text, pos0, st0, d) == (match spec_block(srcv, text, posa, sta, d) {
            Ok(rr) => Ok::<(Seq<char>, PreV, int), CError>((outa + rr.0, rr.1, rr.2)),
            Err(e) => Err::<(Seq<char>, PreV, int), CError>(e),
        }),
        spec_block(srcv, text, posa, sta, d) == spec_block_step(srcv, text, posn, stn, d, piece),
        outn == outa + piece,
    ensures
        spec_block(srcv, text, pos0, st0, d) == (match spec_block(srcv, text, posn, stn, d) {
            Ok(rr) => Ok::<(Seq<char>, PreV, int), CError>((outn + rr.0, rr.1, rr.2)),
            Err(e) => Err::<(Seq<char>, PreV, int), CError>(e),
        }),
{
    let inner = spec_block(srcv, text, posn, stn, d);
    match inner {
        Ok(rr) => {
            assert(outa + (piece + rr.0) =~= outn + rr.0);
        },
        Err(_) => {},
    }
}




/// Strips comments from one file's text and runs the preprocessor over
/// the whole of it, exactly as `spec_pre_file` states; a conditional left
/// open is a fatal parse failure.
pub fn preprocess_file(
    st: &mut Preproc,
    sources: &SourceSet,
    code: Vec<char>,
    depth: u8,
) -> (r: Result<Vec<char>, CError>)
    ensures
        match r {
            Ok(out) => spec_pre_file(sources.files@, code@, pre_view(*old(st)), depth as int)
                == Ok::<(Seq<char>, PreV), CError>((out@, pre_view(*final(st)))),
            Err(e) => spec_pre_file(sources.files@, code@, pre_view(*old(st)), depth as int)
                == Err::<(Seq<char>, PreV), CError>(e),
        },
    decreases depth, code@.len() + 1,
{
    let ghost code0 = code@;
    let mut code = code;
    let pairs = comment_pairs();
    proof {
        crate::comment::lemma_strip_len(comments_view(pairs@), code@, 0);
    }
    Comment::uncomment(&mut code, &pairs);
    proof {
        assert(code@ == strip_from(comment_pairs_v(), code0, 0));
    }
    let (out, p) = match process_block(st, sources, &code, 0, depth) {
        Ok(x) => x,
        Err(e) => {
            return Err(e);
        },
    };
    if p != code.len() {
        return Err(CError::Syntax);
    }
    Ok(out)
}

} // verus!
