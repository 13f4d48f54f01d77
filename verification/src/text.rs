//! Splitting delimited text into lines and fields.
use vstd::prelude::*;

verus! {

/// The parts of `s` delimited by `d`.  There is always exactly one more part
/// than there are occurrences of `d`; in particular the split of an empty
/// sequence is a single empty part.
pub open spec fn split_on(s: Seq<char>, d: char) -> Seq<Seq<char>>
    decreases s.len(),
{
    if s.len() == 0 {
        seq![Seq::<char>::empty()]
    } else if s[0] == d {
        seq![Seq::<char>::empty()] + split_on(s.subrange(1, s.len() as int), d)
    } else {
        let rest = split_on(s.subrange(1, s.len() as int), d);
        seq![seq![s[0]] + rest[0]] + rest.subrange(1, rest.len() as int)
    }
}

pub proof fn lemma_split_on_len(s: Seq<char>, d: char)
    ensures
        split_on(s, d).len() >= 1,
    decreases s.len(),
{
    if s.len() > 0 {
        lemma_split_on_len(s.subrange(1, s.len() as int), d);
    }
}

/// Appending one character to the input either opens a fresh empty part (the
/// character is the delimiter) or extends the last part (it is not).
pub proof fn lemma_split_on_push(s: Seq<char>, c: char, d: char)
    ensures
        c == d ==> split_on(s.push(c), d) =~~= split_on(s, d).push(Seq::<char>::empty()),
        c != d ==> split_on(s.push(c), d) =~~= split_on(s, d).update(
            split_on(s, d).len() - 1,
            split_on(s, d).last().push(c),
        ),
    decreases s.len(),
{
    lemma_split_on_len(s, d);
    let empty = Seq::<char>::empty();
    if s.len() == 0 {
        assert(s.push(c).subrange(1, 1) =~= empty);
        assert(s.push(c)[0] == c);
        if c == d {
            assert(split_on(s.push(c), d) =~~= seq![empty] + split_on(empty, d));
            assert(seq![empty] + split_on(empty, d) =~~= split_on(s, d).push(empty));
        } else {
            let rest = split_on(empty, d);
            assert(split_on(s.push(c), d) =~~= seq![seq![c] + rest[0]] + rest.subrange(
                1,
                rest.len() as int,
            ));
            assert(seq![c] + rest[0] =~= empty.push(c));
            assert(split_on(s.push(c), d) =~~= seq![empty.push(c)]);
            assert(split_on(s, d).update(0, split_on(s, d).last().push(c)) =~~= seq![
                empty.push(c),
            ]);
        }
    } else {
        let t = s.subrange(1, s.len() as int);
        lemma_split_on_len(t, d);
        assert(s.push(c)[0] == s[0]);
        assert(s.push(c).subrange(1, s.push(c).len() as int) =~= t.push(c));
        lemma_split_on_push(t, c, d);
        let rest = split_on(t, d);
        let rest2 = split_on(t.push(c), d);
        if s[0] == d {
            assert(split_on(s, d) =~~= seq![empty] + rest);
            assert(split_on(s.push(c), d) =~~= seq![empty] + rest2);
            if c == d {
                assert(seq![empty] + rest.push(empty) =~~= (seq![empty] + rest).push(empty));
            } else {
                assert(seq![empty] + rest.update(rest.len() - 1, rest.last().push(c)) =~~= (
                seq![empty] + rest).update(rest.len() as int, rest.last().push(c)));
                assert((seq![empty] + rest).last() == rest.last());
            }
        } else {
            let head = seq![s[0]] + rest[0];
            let head2 = seq![s[0]] + rest2[0];
            assert(split_on(s, d) =~~= seq![head] + rest.subrange(1, rest.len() as int));
            assert(split_on(s.push(c), d) =~~= seq![head2] + rest2.subrange(
                1,
                rest2.len() as int,
            ));
            if c == d {
                assert(rest2 =~~= rest.push(empty));
                assert(rest2[0] == rest[0]);
                assert(rest2.subrange(1, rest2.len() as int) =~~= rest.subrange(
                    1,
                    rest.len() as int,
                ).push(empty));
                assert(seq![head] + rest.subrange(1, rest.len() as int).push(empty) =~~= (
                seq![head] + rest.subrange(1, rest.len() as int)).push(empty));
            } else {
                assert(rest2 =~~= rest.update(rest.len() - 1, rest.last().push(c)));
                if rest.len() == 1 {
                    assert(rest2[0] == rest[0].push(c));
                    assert(head2 =~= head.push(c));
                    assert(rest2.subrange(1, 1) =~~= rest.subrange(1, 1));
                    assert(split_on(s.push(c), d) =~~= seq![head.push(c)]);
                    assert(split_on(s, d) =~~= seq![head]);
                    assert(split_on(s, d).update(0, split_on(s, d).last().push(c)) =~~= seq![
                        head.push(c),
                    ]);
                } else {
                    assert(rest2[0] == rest[0]);
                    assert(head2 == head);
                    assert(rest2.subrange(1, rest2.len() as int) =~~= rest.subrange(
                        1,
                        rest.len() as int,
                    ).update(rest.len() - 2, rest.last().push(c)));
                    assert(seq![head] + rest.subrange(1, rest.len() as int).update(
                        rest.len() - 2,
                        rest.last().push(c),
                    ) =~~= (seq![head] + rest.subrange(1, rest.len() as int)).update(
                        rest.len() - 1,
                        rest.last().push(c),
                    ));
                    assert(split_on(s, d).last() == rest.last());
                }
            }
        }
    }
}

/// Splits `s` at every occurrence of `d`, keeping empty parts.
pub fn split_str(s: &str, d: char) -> (parts: Vec<String>)
    ensures
        parts@.len() == split_on(s@, d).len(),
        forall|i: int| 0 <= i < parts@.len() ==> parts@[i]@ == split_on(s@, d)[i],
{
    let n = s.unicode_len();
    let mut parts: Vec<String> = Vec::new();
    let mut start: usize = 0;
    let mut i: usize = 0;
    proof {
        assert(s@.subrange(0, 0) =~= Seq::<char>::empty());
    }
    while i < n
        invariant
            start <= i <= n,
            n == s@.len(),
            parts@.len() + 1 == split_on(s@.subrange(0, i as int), d).len(),
            forall|k: int|
                0 <= k < parts@.len() ==> parts@[k]@ == split_on(s@.subrange(0, i as int), d)[k],
            split_on(s@.subrange(0, i as int), d).last() == s@.subrange(start as int, i as int),
        decreases n - i,
    {
        let ghost prefix = s@.subrange(0, i as int);
        let c = s.get_char(i);
        proof {
            assert(s@.subrange(0, i + 1) =~= prefix.push(s@[i as int]));
            lemma_split_on_push(prefix, s@[i as int], d);
            lemma_split_on_len(prefix, d);
        }
        if c == d {
            let part = s.substring_char(start, i);
            parts.push(String::from_str(part));
            proof {
                assert(split_on(s@.subrange(0, i + 1), d).last() =~= s@.subrange(
                    i + 1,
                    i + 1,
                ));
            }
            start = i + 1;
        } else {
            proof {
                assert(split_on(s@.subrange(0, i + 1), d).last() =~= s@.subrange(
                    start as int,
                    i + 1,
                ));
            }
        }
        i = i + 1;
    }
    proof {
        assert(s@.subrange(0, n as int) =~= s@);
    }
    let part = s.substring_char(start, n);
    parts.push(String::from_str(part));
    parts
}

/// A line with one trailing carriage return removed, so that files with
/// either line-ending convention read the same.
pub open spec fn strip_cr(l: Seq<char>) -> Seq<char> {
    if l.len() > 0 && l.last() == '\r' {
        l.drop_last()
    } else {
        l
    }
}

/// The lines of a text: split at every newline, each line cleaned of a
/// trailing carriage return.
pub open spec fn lines_of(s: Seq<char>) -> Seq<Seq<char>> {
    split_on(s, '\n').map_values(|l: Seq<char>| strip_cr(l))
}

pub proof fn lemma_lines_of_len(s: Seq<char>)
    ensures
        lines_of(s).len() >= 1,
{
    lemma_split_on_len(s, '\n');
}

/// Splits a text into its cleaned lines.
pub fn split_lines(s: &str) -> (lines: Vec<String>)
    ensures
        lines@.len() == lines_of(s@).len(),
        forall|i: int| 0 <= i < lines@.len() ==> lines@[i]@ == lines_of(s@)[i],
{
    let raw = split_str(s, '\n');
    let mut lines: Vec<String> = Vec::new();
    let mut i: usize = 0;
    while i < raw.len()
        invariant
            i <= raw@.len(),
            raw@.len() == split_on(s@, '\n').len(),
            forall|k: int| 0 <= k < raw@.len() ==> raw@[k]@ == split_on(s@, '\n')[k],
            lines@.len() == i,
            forall|k: int| 0 <= k < i ==> lines@[k]@ == lines_of(s@)[k],
        decreases raw@.len() - i,
    {
        let line = &raw[i];
        let ll = line.as_str().unicode_len();
        if ll > 0 && line.as_str().get_char(ll - 1) == '\r' {
            proof {
                assert(line@.subrange(0, ll - 1) =~= line@.drop_last());
            }
            lines.push(String::from_str(line.as_str().substring_char(0, ll - 1)));
        } else {
            lines.push(line.clone());
        }
        i = i + 1;
    }
    lines
}

} // verus!
