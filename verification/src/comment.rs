//! The comment stripper: removes every span delimited by a comment pair
//! from raw text, keeping the end marker when the pair says so, so that
//! line counting downstream stays accurate. An unterminated span consumes
//! silently to the end of the input.

use vstd::prelude::*;

use crate::text::{matches_at, starts_with_at, str_to_chars};

verus! {

/// The mathematical value of a comment delimiter pair.
#[verifier::ext_equal]
pub struct CommentV {
    pub begin: Seq<char>,
    pub end: Seq<char>,
    pub save_end: bool,
}

/// One comment delimiter pair: where a span begins, where it ends, and
/// whether the end marker stays in the output.
pub struct Comment {
    pub begin: Vec<char>,
    pub end: Vec<char>,
    pub save_end: bool,
}

impl View for Comment {
    type V = CommentV;

    open spec fn view(&self) -> CommentV {
        CommentV { begin: self.begin@, end: self.end@, save_end: self.save_end }
    }
}

/// The delimiter list as a sequence of pair values.
pub open spec fn comments_view(cs: Seq<Comment>) -> Seq<CommentV> {
    cs.map(|i: int, c: Comment| c@)
}

/// A delimiter list the stripper can scan by: no empty begin marker, no
/// empty end marker.
pub open spec fn comments_wf(cs: Seq<CommentV>) -> bool {
    forall|i: int|
        0 <= i < cs.len() ==> (#[trigger] cs[i]).begin.len() > 0 && cs[i].end.len() > 0
}

/// The first delimiter pair whose begin marker stands at `i`, if any.
pub open spec fn first_begin(cs: Seq<CommentV>, s: Seq<char>, i: int) -> Option<int>
    decreases cs.len(),
{
    if cs.len() == 0 {
        None
    } else if matches_at(s, i, cs[0].begin) {
        Some(0)
    } else {
        match first_begin(cs.drop_first(), s, i) {
            Some(k) => Some(k + 1),
            None => None,
        }
    }
}

/// The first position at or after `from` where the end marker stands, or
/// the text's length when it never does.
pub open spec fn find_end(s: Seq<char>, from: int, end: Seq<char>) -> int
    decreases (if from <= s.len() { s.len() - from + 1 } else { 0int }),
{
    if from < 0 || from > s.len() {
        s.len() as int
    } else if matches_at(s, from, end) {
        from
    } else if from == s.len() {
        s.len() as int
    } else {
        find_end(s, from + 1, end)
    }
}

proof fn lemma_find_end_bounds(s: Seq<char>, from: int, end: Seq<char>)
    requires
        0 <= from <= s.len(),
    ensures
        from <= find_end(s, from, end) <= s.len(),
        find_end(s, from, end) < s.len() ==> matches_at(s, find_end(s, from, end), end),
    decreases s.len() - from,
{
    if !matches_at(s, from, end) && from < s.len() {
        lemma_find_end_bounds(s, from + 1, end);
    }
}

/// The matched pair index is in range, and the span's resume position
/// moves strictly forward while staying in the text.
pub proof fn lemma_span_bounds(cs: Seq<CommentV>, s: Seq<char>, i: int, c: int)
    requires
        comments_wf(cs),
        0 <= i < s.len(),
        first_begin(cs, s, i) == Some(c),
    ensures
        0 <= c < cs.len(),
        matches_at(s, i, cs[c].begin),
        i < i + cs[c].begin.len() <= find_end(s, i + cs[c].begin.len(), cs[c].end) <= s.len(),
        find_end(s, i + cs[c].begin.len(), cs[c].end) < s.len() ==> find_end(
            s,
            i + cs[c].begin.len(),
            cs[c].end,
        ) + cs[c].end.len() <= s.len(),
    decreases cs.len(),
{
    if cs.len() > 0 {
        if matches_at(s, i, cs[0].begin) {
        } else {
            lemma_span_bounds(cs.drop_first(), s, i, c - 1);
            assert(cs.drop_first()[c - 1] == cs[c]);
        }
    }
    let from = i + cs[c].begin.len();
    lemma_find_end_bounds(s, from, cs[c].end);
}

/// The text with every delimited span removed, scanning from `i`.
pub open spec fn strip_from(cs: Seq<CommentV>, s: Seq<char>, i: int) -> Seq<char>
    decreases (if 0 <= i <= s.len() { s.len() - i + 1 } else { 0int }),
    via strip_from_decreases
{
    if !comments_wf(cs) || i < 0 || i >= s.len() {
        Seq::empty()
    } else {
        match first_begin(cs, s, i) {
            None => seq![s[i]] + strip_from(cs, s, i + 1),
            Some(c) => {
                let j = find_end(s, i + cs[c].begin.len(), cs[c].end);
                if j >= s.len() {
                    Seq::empty()
                } else if cs[c].save_end {
                    strip_from(cs, s, j)
                } else {
                    strip_from(cs, s, j + cs[c].end.len())
                }
            },
        }
    }
}

/// Stripping never lengthens the text: the result holds at most the
/// characters scanned.
pub proof fn lemma_strip_len(cs: Seq<CommentV>, s: Seq<char>, i: int)
    ensures
        strip_from(cs, s, i).len() <= (if 0 <= i <= s.len() {
            s.len() - i
        } else {
            0int
        }),
    decreases (if 0 <= i <= s.len() { s.len() - i + 1 } else { 0int }),
{
    if comments_wf(cs) && 0 <= i < s.len() {
        match first_begin(cs, s, i) {
            None => {
                lemma_strip_len(cs, s, i + 1);
            },
            Some(c) => {
                lemma_span_bounds(cs, s, i, c);
                let j = find_end(s, i + cs[c].begin.len(), cs[c].end);
                if j < s.len() {
                    if cs[c].save_end {
                        lemma_strip_len(cs, s, j);
                    } else {
                        lemma_strip_len(cs, s, j + cs[c].end.len());
                    }
                }
            },
        }
    }
}

#[via_fn]
proof fn strip_from_decreases(cs: Seq<CommentV>, s: Seq<char>, i: int) {
    if comments_wf(cs) && 0 <= i < s.len() {
        match first_begin(cs, s, i) {
            None => {},
            Some(c) => {
                lemma_span_bounds(cs, s, i, c);
            },
        }
    }
}

/// Looks for a begin marker standing at `i`; the first pair in list order
/// wins.
fn find_first_begin(code: &Vec<char>, comments: &Vec<Comment>, i: usize) -> (r: Option<usize>)
    ensures
        match r {
            Some(c) => c < comments@.len() && first_begin(comments_view(comments@), code@, i as int)
                == Some(c as int),
            None => first_begin(comments_view(comments@), code@, i as int) is None,
        },
{
    let ghost cs = comments_view(comments@);
    let mut c: usize = 0;
    assert(cs.skip(0) =~= cs);
    while c < comments.len()
        invariant
            cs == comments_view(comments@),
            cs.len() == comments@.len(),
            0 <= c <= cs.len(),
            first_begin(cs, code@, i as int) == match first_begin(
                cs.skip(c as int),
                code@,
                i as int,
            ) {
                Some(k) => Some(k + c as int),
                None => None::<int>,
            },
        decreases cs.len() - c,
    {
        proof {
            assert(cs.skip(c as int)[0] == cs[c as int]);
            assert(cs.skip(c as int).drop_first() =~= cs.skip(c as int + 1));
        }
        if starts_with_at(code, i, &comments[c].begin) {
            assert(first_begin(cs.skip(c as int), code@, i as int) == Some(0int));
            return Some(c);
        }
        c = c + 1;
    }
    proof {
        assert(cs.skip(c as int) =~= Seq::<CommentV>::empty());
    }
    None
}

impl Comment {
    /// A delimiter pair from its marker texts.
    pub fn new(begin: &str, end: &str, save_end: bool) -> (r: Comment)
        ensures
            r@ == (CommentV { begin: begin@, end: end@, save_end }),
    {
        let r = Comment { begin: str_to_chars(begin), end: str_to_chars(end), save_end };
        assert(r@ =~= CommentV { begin: begin@, end: end@, save_end });
        r
    }

    /// Removes every delimited span from the text.
    pub fn uncomment(code: &mut Vec<char>, comments: &Vec<Comment>)
        requires
            comments_wf(comments_view(comments@)),
        ensures
            final(code)@ == strip_from(comments_view(comments@), old(code)@, 0),
    {
        let ghost cs = comments_view(comments@);
        let ghost s = code@;
        let mut out: Vec<char> = Vec::new();
        let mut i: usize = 0;
        assert(Seq::<char>::empty() + strip_from(cs, s, 0) =~= strip_from(cs, s, 0));
        #[verifier::loop_isolation(false)]
        while i < code.len()
            invariant
                s == code@,
                0 <= i <= s.len(),
                strip_from(cs, s, 0) == out@ + strip_from(cs, s, i as int),
            decreases s.len() - i,
        {
            let ghost i0 = i as int;
            match find_first_begin(code, comments, i) {
                None => {
                    out.push(code[i]);
                    i = i + 1;
                    proof {
                        assert(strip_from(cs, s, i0) == seq![s[i0]] + strip_from(cs, s, i0 + 1));
                        assert(out@ + strip_from(cs, s, i as int) =~= strip_from(cs, s, 0));
                    }
                },
                Some(ci) => {
                    proof {
                        lemma_span_bounds(cs, s, i0, ci as int);
                    }
                    let blen = comments[ci].begin.len();
                    let mut j = i + blen;
                    while j < code.len() && !starts_with_at(code, j, &comments[ci].end)
                        invariant
                            s == code@,
                            ci < comments@.len(),
                            cs == comments_view(comments@),
                            i0 + cs[ci as int].begin.len() <= j,
                            j <= s.len(),
                            find_end(s, i0 + cs[ci as int].begin.len(), cs[ci as int].end)
                                == find_end(s, j as int, cs[ci as int].end),
                        decreases s.len() - j,
                    {
                        j = j + 1;
                    }
                    let ghost jend = find_end(s, i0 + cs[ci as int].begin.len(), cs[ci as int].end);
                    proof {
                        if j < s.len() {
                            assert(matches_at(s, j as int, cs[ci as int].end));
                            assert(find_end(s, j as int, cs[ci as int].end) == j as int);
                        }
                        assert(jend == if j < s.len() {
                            j as int
                        } else {
                            s.len() as int
                        });
                    }
                    if j >= code.len() {
                        i = code.len();
                        proof {
                            assert(strip_from(cs, s, i0) =~= Seq::<char>::empty());
                            assert(strip_from(cs, s, i as int) =~= Seq::<char>::empty());
                            assert(out@ + strip_from(cs, s, i as int) =~= strip_from(cs, s, 0));
                        }
                    } else if comments[ci].save_end {
                        i = j;
                        proof {
                            assert(strip_from(cs, s, i0) == strip_from(cs, s, i as int));
                            assert(out@ + strip_from(cs, s, i as int) =~= strip_from(cs, s, 0));
                        }
                    } else {
                        let elen = comments[ci].end.len();
                        i = j + elen;
                        proof {
                            assert(strip_from(cs, s, i0) == strip_from(cs, s, i as int));
                            assert(out@ + strip_from(cs, s, i as int) =~= strip_from(cs, s, 0));
                        }
                    }
                },
            }
        }
        proof {
            assert(strip_from(cs, s, i as int) =~= Seq::<char>::empty());
            assert(strip_from(cs, s, 0) =~= out@);
        }
        *code = out;
    }
}

} // verus!
