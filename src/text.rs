use vstd::prelude::*;

verus! {

/// The pieces of `s` between occurrences of `sep`, in order; `sep` itself is
/// dropped. There is always at least one piece, and `k` separators give
/// `k + 1` pieces (possibly empty).
pub open spec fn split_on(s: Seq<char>, sep: char) -> Seq<Seq<char>>
    decreases s.len(),
{
    if s.len() == 0 {
        seq![Seq::<char>::empty()]
    } else {
        let prev = split_on(s.drop_last(), sep);
        if s.last() == sep {
            prev.push(Seq::<char>::empty())
        } else {
            prev.update(prev.len() - 1, prev.last().push(s.last()))
        }
    }
}

/// A split always has a first piece.
pub proof fn lemma_split_on_nonempty(s: Seq<char>, sep: char)
    ensures
        split_on(s, sep).len() >= 1,
    decreases s.len(),
{
    if s.len() > 0 {
        lemma_split_on_nonempty(s.drop_last(), sep);
    }
}

/// A line without one trailing carriage return.
pub open spec fn strip_cr(l: Seq<char>) -> Seq<char> {
    if l.len() > 0 && l.last() == '\r' {
        l.drop_last()
    } else {
        l
    }
}

/// What a list of character vectors holds.
pub open spec fn lines_view(v: Seq<Vec<char>>) -> Seq<Seq<char>> {
    v.map_values(|l: Vec<char>| l@)
}

/// The lines of a text: split at `'\n'`, a final line ending is optional, and
/// a carriage return right before a `'\n'` is not part of the line (one at
/// the very end of the text, with no `'\n'` after it, is). The empty text
/// has no lines.
pub open spec fn text_lines(s: Seq<char>) -> Seq<Seq<char>> {
    let parts = split_on(s, '\n');
    let kept = if parts.last().len() == 0 {
        parts.drop_last()
    } else {
        parts
    };
    Seq::new(
        kept.len(),
        |i: int|
            if i < parts.len() - 1 {
                strip_cr(kept[i])
            } else {
                kept[i]
            },
    )
}

/// The characters of `s`, in order.
pub(crate) fn str_to_chars(s: &str) -> (r: Vec<char>)
    ensures
        r@ == s@,
{
    let mut r: Vec<char> = Vec::new();
    for c in it: s.chars()
        invariant
            it.seq() == s@,
            r@ == it.seq().take(it.index() as int),
    {
        assert(it.seq().take(it.index() as int + 1) == it.seq().take(it.index() as int).push(c));
        r.push(c);
    }
    r
}

/// Relies on `String`'s `FromIterator<char>`: collecting characters gives the
/// string made of them, in order.
#[verifier::external_body]
pub(crate) fn chars_to_string(v: &Vec<char>) -> (r: String)
    ensures
        r@ == v@,
{
    v.iter().collect()
}

/// Splits `s` at every `sep`, as `split_on` says.
pub fn split_chars(s: &Vec<char>, sep: char) -> (r: Vec<Vec<char>>)
    ensures
        lines_view(r@) == split_on(s@, sep),
{
    let mut parts: Vec<Vec<char>> = Vec::new();
    let mut cur: Vec<char> = Vec::new();
    let mut i: usize = 0;
    while i < s.len()
        invariant
            i <= s.len(),
            lines_view(parts@).push(cur@) == split_on(s@.take(i as int), sep),
        decreases s.len() - i,
    {
        let c = s[i];
        proof {
            assert(s@.take(i as int + 1).drop_last() == s@.take(i as int));
        }
        let ghost old_parts = lines_view(parts@);
        let ghost old_cur = cur@;
        if c == sep {
            let done = cur;
            parts.push(done);
            cur = Vec::new();
            proof {
                assert(lines_view(parts@) =~= old_parts.push(old_cur));
                assert(cur@ =~= Seq::<char>::empty());
            }
        } else {
            cur.push(c);
            proof {
                let prev = split_on(s@.take(i as int), sep);
                assert(prev =~= old_parts.push(old_cur));
                assert(lines_view(parts@).push(cur@) =~= prev.update(
                    prev.len() - 1,
                    prev.last().push(c),
                ));
            }
        }
        i = i + 1;
    }
    proof {
        assert(s@.take(s.len() as int) == s@);
    }
    let ghost old_parts = lines_view(parts@);
    let ghost old_cur = cur@;
    parts.push(cur);
    proof {
        assert(lines_view(parts@) =~= old_parts.push(old_cur));
    }
    parts
}

/// Splits a text into lines, as `text_lines` says.
pub fn split_lines(s: &Vec<char>) -> (r: Vec<Vec<char>>)
    ensures
        lines_view(r@) == text_lines(s@),
{
    let parts = split_chars(s, '\n');
    proof {
        lemma_split_on_nonempty(s@, '\n');
    }
    let n = parts.len();
    let keep: usize = if parts[n - 1].len() == 0 {
        n - 1
    } else {
        n
    };
    let ghost kept = if lines_view(parts@).last().len() == 0 {
        lines_view(parts@).drop_last()
    } else {
        lines_view(parts@)
    };
    assert(kept.len() == keep);
    let ghost want = text_lines(s@);
    let mut r: Vec<Vec<char>> = Vec::new();
    let mut i: usize = 0;
    while i < keep
        invariant
            i <= keep,
            keep <= parts.len(),
            n == parts.len(),
            kept.len() == keep,
            want == text_lines(s@),
            lines_view(parts@) == split_on(s@, '\n'),
            kept == (if lines_view(parts@).last().len() == 0 {
                lines_view(parts@).drop_last()
            } else {
                lines_view(parts@)
            }),
            forall|j: int| 0 <= j < keep ==> kept[j] == lines_view(parts@)[j],
            lines_view(r@) == want.take(i as int),
        decreases keep - i,
    {
        let mut line = parts[i].clone();
        proof {
            assert(line@ == lines_view(parts@)[i as int]);
        }
        let len = line.len();
        if i < n - 1 && len > 0 && line[len - 1] == '\r' {
            line.pop();
        }
        let ghost old_r = lines_view(r@);
        let ghost lv = line@;
        r.push(line);
        proof {
            assert(lines_view(r@) =~= old_r.push(lv));
            assert(lv == want[i as int]);
            assert(want.take(i as int + 1) =~= want.take(i as int).push(want[i as int]));
        }
        i = i + 1;
    }
    proof {
        assert(want.take(keep as int) =~= want);
    }
    r
}

} // verus!

verus! {

/// The pieces of a split hold no separator, and only characters of the
/// split text.
pub proof fn lemma_split_on_chars(s: Seq<char>, sep: char)
    ensures
        forall|i: int, x: int|
            0 <= i < split_on(s, sep).len() && 0 <= x < split_on(s, sep)[i].len() ==> #[trigger] split_on(
                s,
                sep,
            )[i][x] != sep && s.contains(split_on(s, sep)[i][x]),
    decreases s.len(),
{
    if s.len() > 0 {
        let t = s.drop_last();
        lemma_split_on_chars(t, sep);
        lemma_split_on_nonempty(t, sep);
        let prev = split_on(t, sep);
        assert forall|i: int, x: int|
            0 <= i < split_on(s, sep).len() && 0 <= x < split_on(s, sep)[i].len() implies #[trigger] split_on(
                s,
                sep,
            )[i][x] != sep && s.contains(split_on(s, sep)[i][x]) by {
            let c = split_on(s, sep)[i][x];
            if s.last() == sep {
                assert(i < prev.len());
                assert(c == prev[i][x]);
            } else if i < prev.len() - 1 {
                assert(c == prev[i][x]);
            } else if x < prev.last().len() {
                assert(c == prev[i][x]);
            } else {
                assert(c == s.last());
                assert(s[s.len() - 1] == c);
            }
            if c != s.last() || s.last() == sep || i < prev.len() - 1 || x < prev.last().len() {
                let k = choose|k: int| 0 <= k < t.len() && t[k] == c;
                assert(s[k] == c);
            }
        }
    }
}

} // verus!
