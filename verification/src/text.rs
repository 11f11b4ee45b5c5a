//! Character-sequence operations the fuzzer needs: finding and replacing the
//! placeholder token, joining words with spaces, repeated-character strings,
//! and stripping a trailing line ending.

use vstd::prelude::*;

verus! {

/// The placeholder token that templates mark the candidate's position with.
pub open spec fn placeholder() -> Seq<char> {
    seq!['F', 'U', 'Z', 'Z']
}

/// `pat` occurs in `s` starting at position `i`.
pub open spec fn has_sub_at(s: Seq<char>, pat: Seq<char>, i: int) -> bool {
    0 <= i && i + pat.len() <= s.len() && s.subrange(i, i + pat.len()) == pat
}

/// `pat` occurs somewhere in `s`.
pub open spec fn contains_sub(s: Seq<char>, pat: Seq<char>) -> bool {
    exists|i: int| has_sub_at(s, pat, i)
}

/// Replacement of every occurrence of `pat` in `s` by `rep`, scanning left to
/// right without overlap, as `str::replace` does.
pub open spec fn replace_all(s: Seq<char>, pat: Seq<char>, rep: Seq<char>) -> Seq<char>
    decreases s.len(), when pat.len() >= 1
{
    if s.len() < pat.len() {
        s
    } else if s.take(pat.len() as int) == pat {
        rep + replace_all(s.skip(pat.len() as int), pat, rep)
    } else {
        seq![s[0]] + replace_all(s.skip(1), pat, rep)
    }
}

/// The four placeholder characters stand at position `i` of `s`.
fn placeholder_at(s: &str, i: usize, n: usize) -> (r: bool)
    requires
        n == s@.len(),
        i + 4 <= n,
    ensures
        r == has_sub_at(s@, placeholder(), i as int),
{
    let r = s.get_char(i) == 'F' && s.get_char(i + 1) == 'U' && s.get_char(i + 2) == 'Z'
        && s.get_char(i + 3) == 'Z';
    proof {
        if r {
            assert(s@.subrange(i as int, i + 4) =~= placeholder());
        } else {
            if s@.subrange(i as int, i + 4) == placeholder() {
                assert(s@[i as int] == 'F') by {
                    assert(s@.subrange(i as int, i + 4)[0] == 'F');
                }
                assert(s@[i + 1] == 'U') by {
                    assert(s@.subrange(i as int, i + 4)[1] == 'U');
                }
                assert(s@[i + 2] == 'Z') by {
                    assert(s@.subrange(i as int, i + 4)[2] == 'Z');
                }
                assert(s@[i + 3] == 'Z') by {
                    assert(s@.subrange(i as int, i + 4)[3] == 'Z');
                }
            }
        }
    }
    r
}

/// Whether the template holds the placeholder token at all.
pub fn contains_placeholder(s: &str) -> (r: bool)
    ensures
        r == contains_sub(s@, placeholder()),
{
    let n = s.unicode_len();
    if n < 4 {
        assert(forall|i: int| !has_sub_at(s@, placeholder(), i));
        return false;
    }
    let mut i: usize = 0;
    while i <= n - 4
        invariant
            n == s@.len(),
            4 <= n,
            i <= n,
            forall|j: int| 0 <= j < i ==> !has_sub_at(s@, placeholder(), j),
        ensures
            (exists|j: int| has_sub_at(s@, placeholder(), j)) ==> exists|j: int|
                0 <= j < i && has_sub_at(s@, placeholder(), j),
        decreases n - i,
    {
        if placeholder_at(s, i, n) {
            assert(has_sub_at(s@, placeholder(), i as int));
            return true;
        }
        i = i + 1;
    }
    assert(forall|j: int| i <= j ==> !has_sub_at(s@, placeholder(), j));
    false
}

/// The template with every occurrence of the placeholder replaced by the
/// candidate value.
pub fn replace_placeholder(s: &str, rep: &str) -> (r: String)
    ensures
        r@ == replace_all(s@, placeholder(), rep@),
{
    let ghost pat = placeholder();
    let n = s.unicode_len();
    let mut out = String::new();
    let mut i: usize = 0;
    proof {
        assert(s@.skip(0) =~= s@);
        assert(Seq::<char>::empty() + replace_all(s@, pat, rep@) =~= replace_all(s@, pat, rep@));
    }
    while i < n
        invariant
            n == s@.len(),
            i <= n,
            replace_all(s@, pat, rep@) == out@ + replace_all(s@.skip(i as int), pat, rep@),
            pat == placeholder(),
        decreases n - i,
    {
        let ghost tail = s@.skip(i as int);
        if n - i >= 4 && placeholder_at(s, i, n) {
            proof {
                assert(tail.take(4) =~= s@.subrange(i as int, i + 4));
                assert(tail.skip(4) =~= s@.skip(i + 4));
                assert(replace_all(tail, pat, rep@) == rep@ + replace_all(s@.skip(i + 4), pat, rep@));
            }
            out.append(rep);
            i = i + 4;
            proof {
                assert(out@ + replace_all(s@.skip(i as int), pat, rep@) =~= replace_all(
                    s@,
                    pat,
                    rep@,
                ));
            }
        } else {
            proof {
                assert(tail[0] == s@[i as int]);
                assert(tail.skip(1) =~= s@.skip(i + 1));
                if tail.len() < 4 {
                    assert(replace_all(tail, pat, rep@) == tail);
                    assert(tail =~= seq![s@[i as int]] + s@.skip(i + 1));
                    assert(replace_all(s@.skip(i + 1), pat, rep@) == s@.skip(i + 1));
                } else {
                    assert(tail.take(4) =~= s@.subrange(i as int, i + 4));
                    assert(tail.take(4) != pat);
                    assert(replace_all(tail, pat, rep@) == seq![tail[0]] + replace_all(
                        tail.skip(1),
                        pat,
                        rep@,
                    ));
                }
            }
            let piece = s.substring_char(i, i + 1);
            out.append(piece);
            i = i + 1;
            proof {
                assert(out@ + replace_all(s@.skip(i as int), pat, rep@) =~= replace_all(
                    s@,
                    pat,
                    rep@,
                ));
            }
        }
    }
    proof {
        assert(s@.skip(n as int) =~= Seq::<char>::empty());
        assert(replace_all(s@.skip(n as int), pat, rep@) == s@.skip(n as int));
        assert(out@ =~= replace_all(s@, pat, rep@));
    }
    out
}

/// The words joined by single spaces, as `[&str]::join(" ")` renders an
/// argument list.
pub open spec fn join_spaces(ws: Seq<Seq<char>>) -> Seq<char>
    decreases ws.len(),
{
    if ws.len() == 0 {
        Seq::<char>::empty()
    } else if ws.len() == 1 {
        ws[0]
    } else {
        ws[0] + seq![' '] + join_spaces(ws.skip(1))
    }
}

/// Joining one more word appends a space and the word (or is the word alone,
/// when it is the first).
pub proof fn lemma_join_push(ws: Seq<Seq<char>>, w: Seq<char>)
    ensures
        ws.len() == 0 ==> join_spaces(ws.push(w)) == w,
        ws.len() > 0 ==> join_spaces(ws.push(w)) == join_spaces(ws) + seq![' '] + w,
    decreases ws.len(),
{
    if ws.len() == 0 {
        assert(ws.push(w)[0] == w);
    } else if ws.len() == 1 {
        assert(ws.push(w).skip(1) =~= seq![w]);
        assert(join_spaces(seq![w]) == w);
    } else {
        lemma_join_push(ws.skip(1), w);
        assert(ws.push(w).skip(1) =~= ws.skip(1).push(w));
        assert(join_spaces(ws.push(w)) == ws[0] + seq![' '] + join_spaces(ws.skip(1).push(w)));
    }
}

/// Joins the argument words with single spaces.
pub fn join_with_spaces(ws: &Vec<String>) -> (r: String)
    ensures
        r@ == join_spaces(ws.deep_view()),
{
    let ghost dv = ws.deep_view();
    let mut out = String::new();
    let mut i: usize = 0;
    proof {
        reveal_strlit(" ");
    }
    while i < ws.len()
        invariant
            i <= ws.len(),
            dv == ws.deep_view(),
            dv.len() == ws.len(),
            forall|j: int| 0 <= j < dv.len() ==> dv[j] == #[trigger] ws@[j]@,
            out@ == join_spaces(dv.take(i as int)),
            " "@ == seq![' '],
        decreases ws.len() - i,
    {
        if i > 0 {
            out.append(" ");
        }
        out.append(ws[i].as_str());
        proof {
            lemma_join_push(dv.take(i as int), dv[i as int]);
            assert(dv.take(i + 1) =~= dv.take(i as int).push(dv[i as int]));
            assert(out@ =~= join_spaces(dv.take(i + 1)));
        }
        i = i + 1;
    }
    proof {
        assert(dv.take(ws.len() as int) =~= dv);
    }
    out
}

/// A string of `n` copies of the capital letter used by the string-range
/// mode.
pub fn repeat_a(n: usize) -> (r: String)
    ensures
        r@ == Seq::new(n as nat, |i: int| 'A'),
{
    let mut out = String::new();
    let mut i: usize = 0;
    proof {
        reveal_strlit("A");
    }
    while i < n
        invariant
            i <= n,
            out@.len() == i,
            forall|j: int| 0 <= j < i ==> out@[j] == 'A',
            "A"@ == seq!['A'],
        decreases n - i,
    {
        out.append("A");
        i = i + 1;
    }
    proof {
        assert(out@ =~= Seq::new(n as nat, |i: int| 'A'));
    }
    out
}

/// A line with its line ending removed: a trailing newline goes, and a
/// carriage return that stood right before it goes with it. A carriage
/// return without a newline after it stays.
pub open spec fn strip_eol(s: Seq<char>) -> Seq<char> {
    if s.len() > 0 && s.last() == '\n' {
        let t = s.drop_last();
        if t.len() > 0 && t.last() == '\r' {
            t.drop_last()
        } else {
            t
        }
    } else {
        s
    }
}

/// Removes one trailing line ending, as reading a file line by line strips
/// it.
pub fn strip_line_ending(s: &str) -> (r: String)
    ensures
        r@ == strip_eol(s@),
{
    let n = s.unicode_len();
    let mut end = n;
    if end > 0 && s.get_char(end - 1) == '\n' {
        end = end - 1;
        proof {
            assert(s@.subrange(0, end as int) =~= s@.drop_last());
        }
        let ghost t = s@.subrange(0, end as int);
        if end > 0 && s.get_char(end - 1) == '\r' {
            end = end - 1;
            proof {
                assert(s@.subrange(0, end as int) =~= t.drop_last());
            }
        }
    } else {
        proof {
            assert(s@.subrange(0, end as int) =~= s@);
        }
    }
    let kept = s.substring_char(0, end);
    kept.to_owned()
}

} // verus!
