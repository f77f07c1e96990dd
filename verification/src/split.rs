//! Cutting a text into parts and putting parts together again.

use crate::text::{chars_between, from_chars, split_once, split_once_chars, to_chars};
use vstd::prelude::*;
use vstd::string::*;

verus! {

/// The contents of vectors of characters.
pub open spec fn views(v: Seq<Vec<char>>) -> Seq<Seq<char>> {
    Seq::new(v.len(), |i: int| v[i]@)
}

/// The contents of texts.
pub open spec fn texts(v: Seq<String>) -> Seq<Seq<char>> {
    Seq::new(v.len(), |i: int| v[i]@)
}

/// The parts of `s` between the characters `sep`. There is always one part more
/// than there are separators.
pub open spec fn split(s: Seq<char>, sep: char) -> Seq<Seq<char>>
    decreases s.len(),
{
    if s.len() == 0 {
        seq![Seq::<char>::empty()]
    } else {
        let rest = split(s.drop_last(), sep);
        if s.last() == sep {
            rest.push(Seq::<char>::empty())
        } else {
            rest.drop_last().push(rest.last().push(s.last()))
        }
    }
}

/// The parts one after the other with `sep` between neighbours.
pub open spec fn join(parts: Seq<Seq<char>>, sep: char) -> Seq<char>
    decreases parts.len(),
{
    if parts.len() == 0 {
        Seq::empty()
    } else if parts.len() == 1 {
        parts[0]
    } else {
        join(parts.drop_last(), sep).push(sep) + parts.last()
    }
}

/// Cuts `s` at every `sep`.
pub fn split_chars(s: &[char], sep: char) -> (r: Vec<Vec<char>>)
    ensures
        views(r@) == split(s@, sep),
        r@.len() > 0,
{
    let mut done: Vec<Vec<char>> = Vec::new();
    let mut cur: Vec<char> = Vec::new();
    assert(s@.take(0) =~= Seq::<char>::empty());
    assert(views(done@).push(cur@) =~= seq![Seq::<char>::empty()]);
    for i in 0..s.len()
        invariant
            views(done@).push(cur@) == split(s@.take(i as int), sep),
    {
        let ghost prev = split(s@.take(i as int), sep);
        assert(s@.take(i + 1).drop_last() =~= s@.take(i as int));
        assert(prev.last() == cur@);
        assert(prev.drop_last() =~= views(done@));
        if s[i] == sep {
            let ghost old_done = done@;
            let ghost old_cur = cur@;
            done.push(cur);
            cur = Vec::new();
            assert(views(done@) =~= views(old_done).push(old_cur));
            assert(cur@ =~= Seq::<char>::empty());
        } else {
            cur.push(s[i]);
        }
    }
    assert(s@.take(s@.len() as int) =~= s@);
    let ghost old_done = done@;
    let ghost old_cur = cur@;
    done.push(cur);
    assert(views(done@) =~= views(old_done).push(old_cur));
    done
}

/// Puts the texts together with `sep` between neighbours.
pub fn join_texts(parts: &[String], sep: char) -> (r: String)
    ensures
        r@ == join(texts(parts@), sep),
{
    let mut r = String::new();
    for i in 0..parts.len()
        invariant
            r@ == join(texts(parts@).take(i as int), sep),
    {
        assert(texts(parts@).take(i + 1).drop_last() =~= texts(parts@).take(i as int));
        if i > 0 {
            r.push(sep);
        } else {
            assert(r@ + texts(parts@)[0] =~= texts(parts@)[0]);
        }
        r.append(parts[i].as_str());
    }
    assert(texts(parts@).take(parts@.len() as int) =~= texts(parts@));
    r
}

/// Cuts the text `s` at every `sep` into texts.
pub fn split_text(s: &str, sep: char) -> (r: Vec<String>)
    ensures
        texts(r@) == split(s@, sep),
{
    let chars = to_chars(s);
    let parts = split_chars(&chars, sep);
    let mut r: Vec<String> = Vec::new();
    for i in 0..parts.len()
        invariant
            texts(r@) == views(parts@).take(i as int),
    {
        let ghost before = r@;
        let part = from_chars(&parts[i]);
        let ghost seen = part@;
        r.push(part);
        assert(texts(r@) =~= texts(before).push(seen));
        assert(views(parts@).take(i + 1) =~= views(parts@).take(i as int).push(seen));
    }
    assert(views(parts@).take(parts@.len() as int) =~= views(parts@));
    r
}

// *** Facts about splitting

/// No part holds the separator, and there is at least one part.
pub proof fn lemma_split_parts(s: Seq<char>, sep: char)
    ensures
        split(s, sep).len() > 0,
        forall|i: int| 0 <= i < split(s, sep).len() ==> !(#[trigger] split(s, sep)[i]).contains(sep),
    decreases s.len(),
{
    if s.len() > 0 {
        lemma_split_parts(s.drop_last(), sep);
    }
}

/// Text behind the last separator is the last part.
pub proof fn lemma_split_behind(a: Seq<char>, b: Seq<char>, sep: char)
    requires
        !b.contains(sep),
    ensures
        split(a.push(sep) + b, sep) == split(a, sep).push(b),
    decreases b.len(),
{
    let s = a.push(sep) + b;
    if b.len() == 0 {
        assert(s =~= a.push(sep));
        assert(s.drop_last() =~= a);
        assert(b =~= Seq::<char>::empty());
    } else {
        let short = b.drop_last();
        assert forall|i: int| 0 <= i < short.len() implies short[i] != sep by {
            assert(b.contains(b[i]));
        }
        lemma_split_behind(a, short, sep);
        assert(s.drop_last() =~= a.push(sep) + short);
        assert(b.contains(b.last()));
        assert(split(a, sep).push(short).drop_last() =~= split(a, sep));
        assert(short.push(b.last()) =~= b);
    }
}

/// Two texts with a separator between them have the parts of both.
pub proof fn lemma_split_concat(a: Seq<char>, b: Seq<char>, sep: char)
    ensures
        split(a.push(sep) + b, sep) == split(a, sep) + split(b, sep),
    decreases b.len(),
{
    let s = a.push(sep) + b;
    if b.len() == 0 {
        assert(s =~= a.push(sep));
        assert(s.drop_last() =~= a);
        assert(split(s, sep) =~= split(a, sep) + split(b, sep));
    } else {
        let short = b.drop_last();
        lemma_split_concat(a, short, sep);
        lemma_split_parts(short, sep);
        assert(s.drop_last() =~= a.push(sep) + short);
        let (x, y) = (split(a, sep), split(short, sep));
        assert((x + y).drop_last() =~= x + y.drop_last());
        assert(split(s, sep) =~= x + split(b, sep));
    }
}

/// A text without separator is its only part.
pub proof fn lemma_split_whole(b: Seq<char>, sep: char)
    requires
        !b.contains(sep),
    ensures
        split(b, sep) == seq![b],
    decreases b.len(),
{
    if b.len() == 0 {
        assert(b =~= Seq::<char>::empty());
    } else {
        let short = b.drop_last();
        assert forall|i: int| 0 <= i < short.len() implies short[i] != sep by {
            assert(b.contains(b[i]));
        }
        lemma_split_whole(short, sep);
        assert(b.contains(b.last()));
        assert(short.push(b.last()) =~= b);
        assert(split(b, sep) =~= seq![b]);
    }
}

/// Lists of texts are read one by one.
pub proof fn lemma_texts(v: Seq<String>)
    ensures
        texts(v).len() == v.len(),
        forall|i: int| 0 <= i < v.len() ==> #[trigger] texts(v)[i] == v[i]@,
{
}

/// Lists of lists of characters are read one by one.
pub proof fn lemma_views(v: Seq<Vec<char>>)
    ensures
        views(v).len() == v.len(),
        forall|i: int| 0 <= i < v.len() ==> #[trigger] views(v)[i] == v[i]@,
{
}

/// One more part comes behind one more separator; a single part stands alone.
pub proof fn lemma_join_more(parts: Seq<Seq<char>>, last: Seq<char>, sep: char)
    ensures
        parts.len() == 0 ==> join(parts.push(last), sep) == last,
        parts.len() > 0 ==> join(parts.push(last), sep) == join(parts, sep) + seq![sep] + last,
        join(Seq::<Seq<char>>::empty(), sep) == Seq::<char>::empty(),
{
    assert(parts.push(last).drop_last() =~= parts);
    assert(join(parts, sep).push(sep) =~= join(parts, sep) + seq![sep]);
}

/// Splitting undoes joining, where no part holds the separator.
pub proof fn lemma_split_join(parts: Seq<Seq<char>>, sep: char)
    requires
        parts.len() > 0,
        forall|i: int| 0 <= i < parts.len() ==> !(#[trigger] parts[i]).contains(sep),
    ensures
        split(join(parts, sep), sep) == parts,
    decreases parts.len(),
{
    if parts.len() == 1 {
        lemma_split_whole(parts[0], sep);
        assert(parts =~= seq![parts[0]]);
    } else {
        lemma_split_join(parts.drop_last(), sep);
        lemma_split_behind(join(parts.drop_last(), sep), parts.last(), sep);
        assert(parts.drop_last().push(parts.last()) =~= parts);
    }
}

/// Joining undoes splitting.
pub proof fn lemma_join_split(s: Seq<char>, sep: char)
    ensures
        join(split(s, sep), sep) == s,
    decreases s.len(),
{
    if s.len() == 0 {
        assert(s =~= Seq::<char>::empty());
    } else {
        let short = s.drop_last();
        lemma_join_split(short, sep);
        lemma_split_parts(short, sep);
        let rest = split(short, sep);
        assert(short.push(s.last()) =~= s);
        if s.last() == sep {
            assert(rest.push(Seq::<char>::empty()).drop_last() =~= rest);
            assert(short.push(sep) + Seq::<char>::empty() =~= s);
        } else {
            let grown = rest.drop_last().push(rest.last().push(s.last()));
            assert(grown.drop_last() =~= rest.drop_last());
            if rest.len() > 1 {
                assert(join(rest.drop_last(), sep).push(sep) + rest.last().push(s.last())
                    =~= (join(rest.drop_last(), sep).push(sep) + rest.last()).push(s.last()));
            }
        }
    }
}

/// A joined list of more than one part, or of one part that is not empty, is
/// not empty.
pub proof fn lemma_join_nonempty(parts: Seq<Seq<char>>, sep: char)
    requires
        parts.len() > 1 || (parts.len() == 1 && parts[0].len() > 0),
    ensures
        join(parts, sep).len() > 0,
{
}

// *** Lines

/// `s` without one carriage return at its end.
pub open spec fn strip_return(s: Seq<char>) -> Seq<char> {
    if s.len() > 0 && s.last() == '\r' {
        s.drop_last()
    } else {
        s
    }
}

/// The lines of a text. A line ends in a line feed, with or without a carriage
/// return before it; the last line may go without.
pub open spec fn lines(s: Seq<char>) -> Seq<Seq<char>> {
    let parts = split(s, '\n');
    let ended = parts.drop_last().map_values(|p: Seq<char>| strip_return(p));
    if parts.last().len() == 0 {
        ended
    } else {
        ended.push(parts.last())
    }
}

/// The lines of `s` when more text follows it behind a line feed.
pub open spec fn ended_lines(s: Seq<char>) -> Seq<Seq<char>> {
    split(s, '\n').map_values(|p: Seq<char>| strip_return(p))
}

/// The first line is what stands before the first line feed, and a carriage
/// return right before it does not belong to the line. What follows is read in
/// the same way. An empty text has no line, and a text without a line feed is
/// one line.
pub proof fn lemma_first_line(line: Seq<char>, rest: Seq<char>)
    requires
        !line.contains('\n'),
    ensures
        line.len() == 0 || line.last() != '\r' ==> lines(line.push('\n') + rest) == seq![line] + lines(
            rest,
        ),
        lines(line.push('\r').push('\n') + rest) == seq![line] + lines(rest),
        line.len() > 0 ==> lines(line) == seq![line],
        lines(Seq::<char>::empty()) == Seq::<Seq<char>>::empty(),
{
    lemma_lines_concat(line, rest);
    lemma_split_whole(line, '\n');
    let long = line.push('\r');
    assert(!long.contains('\n')) by {
        assert forall|i: int| 0 <= i < long.len() implies long[i] != '\n' by {
            if i < line.len() {
                assert(line.contains(line[i]));
            }
        }
    }
    lemma_lines_concat(long, rest);
    lemma_split_whole(long, '\n');
    assert(long.drop_last() =~= line);
    assert(ended_lines(long) =~= seq![line]);
    if line.len() == 0 || line.last() != '\r' {
        assert(ended_lines(line) =~= seq![line]);
    }
    assert(seq![line].drop_last() =~= Seq::<Seq<char>>::empty());
    assert(lines(Seq::<char>::empty()) =~= Seq::<Seq<char>>::empty());
    if line.len() > 0 {
        assert(lines(line) =~= seq![line]);
    }
}

/// The lines before a line feed are followed by the lines behind it.
pub proof fn lemma_lines_concat(a: Seq<char>, b: Seq<char>)
    ensures
        lines(a.push('\n') + b) == ended_lines(a) + lines(b),
{
    lemma_split_concat(a, b, '\n');
    lemma_split_parts(b, '\n');
    let (x, y) = (split(a, '\n'), split(b, '\n'));
    assert((x + y).drop_last() =~= x + y.drop_last());
    let strip = |p: Seq<char>| strip_return(p);
    assert((x + y.drop_last()).map_values(strip) =~= x.map_values(strip) + y.drop_last().map_values(
        strip,
    ));
    assert(lines(a.push('\n') + b) =~= ended_lines(a) + lines(b));
}

/// Cuts a text into its lines.
pub fn lines_of(s: &[char]) -> (r: Vec<Vec<char>>)
    ensures
        views(r@) == lines(s@),
{
    let parts = split_chars(s, '\n');
    let n: usize = parts.len() - 1;
    let mut r: Vec<Vec<char>> = Vec::new();
    let ghost ended = views(parts@).drop_last().map_values(|p: Seq<char>| strip_return(p));
    for i in 0..n
        invariant
            n + 1 == parts@.len(),
            ended == views(parts@).drop_last().map_values(|p: Seq<char>| strip_return(p)),
            views(r@) == ended.take(i as int),
    {
        let ghost before = r@;
        let part = &parts[i];
        let k: usize = part.len();
        let line = if k > 0 && part[k - 1] == '\r' {
            chars_between(part, 0, k - 1)
        } else {
            chars_between(part, 0, k)
        };
        let ghost seen = line@;
        assert(seen =~= strip_return(part@));
        r.push(line);
        assert(views(r@) =~= views(before).push(seen));
        assert(ended.take(i + 1) =~= ended.take(i as int).push(seen));
    }
    assert(ended.take(n as int) =~= ended);
    let last = &parts[n];
    if last.len() > 0 {
        let ghost before = r@;
        let line = chars_between(last, 0, last.len());
        let ghost seen = line@;
        assert(seen =~= last@);
        r.push(line);
        assert(views(r@) =~= views(before).push(seen));
    }
    r
}

/// At most `n` parts: the first ones end at a `sep`, the last holds the rest.
pub open spec fn splitn(s: Seq<char>, n: nat, sep: char) -> Seq<Seq<char>>
    decreases n,
{
    if n == 0 {
        Seq::empty()
    } else if n == 1 {
        seq![s]
    } else {
        match split_once(s, sep) {
            None => seq![s],
            Some((a, b)) => seq![a] + splitn(b, (n - 1) as nat, sep),
        }
    }
}

/// At most `n` parts come out: the first `n - 1` separators cut, and the last
/// part keeps the others.
pub proof fn lemma_splitn(a: Seq<char>, b: Seq<char>, n: nat, sep: char)
    requires
        !a.contains(sep),
    ensures
        n > 0 ==> splitn(a, n, sep) == seq![a],
        n > 1 ==> splitn(a.push(sep) + b, n, sep) == seq![a] + splitn(b, (n - 1) as nat, sep),
        splitn(b, 1, sep) == seq![b],
        splitn(b, 0, sep) == Seq::<Seq<char>>::empty(),
{
    crate::text::lemma_split_once(a, b, sep);
}

/// Cuts `s` into at most `n` parts.
pub fn splitn_chars(s: &[char], n: usize, sep: char) -> (r: Vec<Vec<char>>)
    ensures
        views(r@) == splitn(s@, n as nat, sep),
{
    let mut r: Vec<Vec<char>> = Vec::new();
    let mut rest = chars_between(s, 0, s.len());
    let mut left: usize = n;
    assert(rest@ =~= s@);
    assert(views(r@) + splitn(rest@, left as nat, sep) =~= splitn(s@, n as nat, sep));
    while left > 1
        invariant
            views(r@) + splitn(rest@, left as nat, sep) == splitn(s@, n as nat, sep),
            left <= n,
        decreases left,
    {
        let ghost before = r@;
        let ghost old_rest = rest@;
        match split_once_chars(&rest, sep) {
            None => {
                r.push(rest);
                assert(views(r@) =~= views(before) + seq![old_rest]);
                return r;
            },
            Some((a, b)) => {
                let ghost head = a@;
                r.push(a);
                rest = b;
                left = left - 1;
                assert(views(r@) =~= views(before).push(head));
                assert(views(r@) + splitn(rest@, left as nat, sep) =~= views(before) + (seq![head]
                    + splitn(rest@, left as nat, sep)));
            },
        }
    }
    if left == 1 {
        let ghost before = r@;
        let ghost old_rest = rest@;
        r.push(rest);
        assert(views(r@) =~= views(before) + seq![old_rest]);
    } else {
        assert(views(r@) + Seq::<Seq<char>>::empty() =~= views(r@));
    }
    r
}

} // verus!
