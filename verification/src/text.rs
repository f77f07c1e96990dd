//! Text helpers. Every function is specified over the sequence of characters
//! of a text; the executable side works on slices of characters.

use vstd::prelude::*;
use vstd::string::*;

verus! {

/// `String::push` appends one character to the end of the string.
pub assume_specification[ String::push ](s: &mut String, c: char)
    ensures
        final(s)@ == old(s)@.push(c),
;

// *** Conversions

/// The characters of `s`, in order.
pub fn to_chars(s: &str) -> (r: Vec<char>)
    ensures
        r@ == s@,
{
    let mut r: Vec<char> = Vec::new();
    for c in it: s.chars()
        invariant
            r@ == it.seq().take(it.index()),
            it.seq() == s@,
    {
        r.push(c);
    }
    r
}

/// The text made of the characters `chars`.
pub fn from_chars(chars: &[char]) -> (r: String)
    ensures
        r@ == chars@,
{
    let mut r = String::new();
    for i in 0..chars.len()
        invariant
            r@ == chars@.take(i as int),
    {
        r.push(chars[i]);
    }
    assert(chars@.take(chars@.len() as int) == chars@);
    r
}

/// The part `chars[from..to]` as a vector of its own.
pub fn chars_between(chars: &[char], from: usize, to: usize) -> (r: Vec<char>)
    requires
        from <= to <= chars@.len(),
    ensures
        r@ == chars@.subrange(from as int, to as int),
{
    let mut r: Vec<char> = Vec::new();
    for i in from..to
        invariant
            from <= i <= to <= chars@.len(),
            r@ == chars@.subrange(from as int, i as int),
    {
        r.push(chars[i]);
    }
    r
}

/// The text `a` followed by the text `b`.
pub fn concat(a: &str, b: &str) -> (r: String)
    ensures
        r@ == a@ + b@,
{
    let mut r = a.to_owned();
    r.append(b);
    r
}

/// The texts `a`, `b` and `c` one after the other.
pub fn concat3(a: &str, b: &str, c: &str) -> (r: String)
    ensures
        r@ == a@ + b@ + c@,
{
    let mut r = a.to_owned();
    r.append(b);
    r.append(c);
    r
}

/// Whether two texts hold the same characters.
pub fn same(a: &str, b: &str) -> (r: bool)
    ensures
        r == (a@ == b@),
{
    a.to_owned() == b.to_owned()
}

/// Whether two slices hold the same characters.
pub fn same_chars(a: &[char], b: &[char]) -> (r: bool)
    ensures
        r == (a@ == b@),
{
    if a.len() != b.len() {
        return false;
    }
    for i in 0..a.len()
        invariant
            a@.len() == b@.len(),
            forall|j: int| 0 <= j < i ==> a@[j] == b@[j],
    {
        if a[i] != b[i] {
            return false;
        }
    }
    assert(a@ =~= b@);
    true
}

/// Whether `c` occurs in `s`.
pub fn has_char(s: &str, c: char) -> (r: bool)
    ensures
        r == s@.contains(c),
{
    let chars = to_chars(s);
    for i in 0..chars.len()
        invariant
            chars@ == s@,
            forall|j: int| 0 <= j < i ==> s@[j] != c,
    {
        if chars[i] == c {
            assert(s@[i as int] == c);
            return true;
        }
    }
    false
}

// *** Quoting

/// A text in double quotes, as the formatter of the standard library escapes it
/// for debugging.
pub uninterp spec fn debug_quoted(s: Seq<char>) -> Seq<char>;

/// `format!` with `{:?}` on a text writes it in double quotes with escapes; the
/// same text always gives the same result.
#[verifier::external_body]
pub(crate) fn quoted(s: &str) -> (r: String)
    ensures
        r@ == debug_quoted(s@),
{
    format!("{:?}", s)
}

// *** Order

/// Whether `a` comes before `b` in dictionary order of code points. UTF-8 keeps
/// that order, so it is also the order of the encoded bytes.
pub open spec fn lex_less(a: Seq<char>, b: Seq<char>) -> bool
    decreases a.len(),
{
    if b.len() == 0 {
        false
    } else if a.len() == 0 {
        true
    } else if a[0] != b[0] {
        (a[0] as int) < (b[0] as int)
    } else {
        lex_less(a.drop_first(), b.drop_first())
    }
}

/// Order of two characters by code point.
fn code_less(a: char, b: char) -> (r: bool)
    ensures
        r == ((a as int) < (b as int)),
{
    (a as u32) < (b as u32)
}

/// Dictionary order on texts.
pub fn text_less(a: &str, b: &str) -> (r: bool)
    ensures
        r == lex_less(a@, b@),
{
    let x = to_chars(a);
    let y = to_chars(b);
    let mut i: usize = 0;
    assert(x@.skip(0) == x@ && y@.skip(0) == y@);
    while i < x.len() && i < y.len()
        invariant
            x@ == a@,
            y@ == b@,
            i <= x.len(),
            i <= y.len(),
            lex_less(a@, b@) == lex_less(x@.skip(i as int), y@.skip(i as int)),
        decreases x.len() - i,
    {
        if x[i] != y[i] {
            return code_less(x[i], y[i]);
        }
        assert(x@.skip(i as int).drop_first() == x@.skip(i + 1));
        assert(y@.skip(i as int).drop_first() == y@.skip(i + 1));
        i = i + 1;
    }
    i < y.len()
}

/// No text comes before itself, and of two different texts exactly one comes
/// before the other.
pub proof fn lemma_lex_total(a: Seq<char>, b: Seq<char>)
    ensures
        !lex_less(a, a),
        a != b ==> lex_less(a, b) != lex_less(b, a),
        a == b ==> !lex_less(a, b),
    decreases a.len(),
{
    if a.len() > 0 {
        lemma_lex_total(a.drop_first(), b.drop_first());
        if b.len() > 0 && a[0] == b[0] {
            if a.drop_first() == b.drop_first() {
                assert(a =~= seq![a[0]] + a.drop_first());
                assert(b =~= seq![b[0]] + b.drop_first());
            }
        }
    } else if b.len() == 0 {
        assert(a =~= b);
    }
}

/// A text comes before another if at the first place where they differ it has
/// the smaller character, or if it ends there.
pub proof fn lemma_lex_at(a: Seq<char>, b: Seq<char>, k: int)
    requires
        0 <= k <= a.len(),
        k <= b.len(),
        forall|i: int| 0 <= i < k ==> a[i] == b[i],
    ensures
        k == a.len() && k < b.len() ==> lex_less(a, b) && !lex_less(b, a),
        k == a.len() && k == b.len() ==> !lex_less(a, b),
        k < a.len() && k < b.len() && (a[k] as int) < (b[k] as int) ==> lex_less(a, b) && !lex_less(
            b,
            a,
        ),
    decreases k,
{
    if k > 0 {
        let (x, y) = (a.drop_first(), b.drop_first());
        assert forall|i: int| 0 <= i < k - 1 implies x[i] == y[i] by {
            assert(a[i + 1] == b[i + 1]);
        }
        lemma_lex_at(x, y, k - 1);
        assert(a[0] == b[0]);
    }
}

/// Dictionary order is transitive.
pub proof fn lemma_lex_transitive(a: Seq<char>, b: Seq<char>, c: Seq<char>)
    requires
        lex_less(a, b),
        lex_less(b, c),
    ensures
        lex_less(a, c),
    decreases a.len(),
{
    if a.len() > 0 && b.len() > 0 && c.len() > 0 && a[0] == b[0] && b[0] == c[0] {
        lemma_lex_transitive(a.drop_first(), b.drop_first(), c.drop_first());
    }
}

// *** Character classes and trimming

/// The Unicode White_Space property.
pub open spec fn is_white(c: char) -> bool {
    let n = c as u32;
    ||| 0x09 <= n <= 0x0d
    ||| n == 0x20
    ||| n == 0x85
    ||| n == 0xa0
    ||| n == 0x1680
    ||| 0x2000 <= n <= 0x200a
    ||| n == 0x2028
    ||| n == 0x2029
    ||| n == 0x202f
    ||| n == 0x205f
    ||| n == 0x3000
}

/// A set of characters that trimming removes.
#[derive(Clone, Copy)]
pub enum CharClass {
    /// White space.
    White,
    /// One character.
    Only(char),
}

impl CharClass {
    /// Whether `c` belongs to the class.
    pub open spec fn has(self, c: char) -> bool {
        match self {
            CharClass::White => is_white(c),
            CharClass::Only(d) => c == d,
        }
    }

    /// Tests whether `c` belongs to the class.
    pub fn test(self, c: char) -> (r: bool)
        ensures
            r == self.has(c),
    {
        match self {
            CharClass::White => {
                let n: u32 = c as u32;
                (0x09 <= n && n <= 0x0d) || n == 0x20 || n == 0x85 || n == 0xa0 || n == 0x1680 || (
                0x2000 <= n && n <= 0x200a) || n == 0x2028 || n == 0x2029 || n == 0x202f || n
                    == 0x205f || n == 0x3000
            },
            CharClass::Only(d) => c == d,
        }
    }
}

/// `s` without the leading characters of `class`.
pub open spec fn trim_left(s: Seq<char>, class: CharClass) -> Seq<char>
    decreases s.len(),
{
    if s.len() > 0 && class.has(s[0]) {
        trim_left(s.drop_first(), class)
    } else {
        s
    }
}

/// `s` without the trailing characters of `class`.
pub open spec fn trim_right(s: Seq<char>, class: CharClass) -> Seq<char>
    decreases s.len(),
{
    if s.len() > 0 && class.has(s.last()) {
        trim_right(s.drop_last(), class)
    } else {
        s
    }
}

/// `s` without the characters of `class` at both ends.
pub open spec fn trimmed(s: Seq<char>, class: CharClass) -> Seq<char> {
    trim_right(trim_left(s, class), class)
}

/// The first 128 code points hold six white ones: the tab, the line feed, the
/// vertical tab, the form feed, the carriage return and the space.
pub proof fn lemma_white_ascii(c: char)
    requires
        (c as u32) < 128,
    ensures
        is_white(c) <==> (c == '\t' || c == '\n' || c as u32 == 11 || c as u32 == 12 || c == '\r' || c
            == ' '),
{
}

/// Beyond them stand nineteen more.
pub proof fn lemma_white_beyond(c: char)
    requires
        (c as u32) >= 128,
    ensures
        is_white(c) <==> (c as u32 == 133 || c as u32 == 160 || c as u32 == 5760 || (8192 <= c as u32
            && c as u32 <= 8202) || c as u32 == 8232 || c as u32 == 8233 || c as u32 == 8239
            || c as u32 == 8287 || c as u32 == 12288),
{
}

/// Trimming cuts off two ends made of characters of the class, and what is left
/// neither starts nor ends with one.
pub proof fn lemma_trimmed(s: Seq<char>, class: CharClass)
    ensures
        exists|i: int, j: int|
            #![trigger s.subrange(i, j)]
            {
                &&& 0 <= i <= j <= s.len()
                &&& trimmed(s, class) == s.subrange(i, j)
                &&& forall|k: int| 0 <= k < i ==> class.has(#[trigger] s[k])
                &&& forall|k: int| j <= k < s.len() ==> class.has(#[trigger] s[k])
            },
        trimmed(s, class).len() > 0 ==> !class.has(trimmed(s, class)[0]) && !class.has(
            trimmed(s, class).last(),
        ),
{
    let i = lemma_trim_left(s, class);
    let t = trim_left(s, class);
    let n = lemma_trim_right(t, class);
    assert(s.subrange(i, i + n) =~= t.take(n));
    assert(trimmed(s, class) == s.subrange(i, i + n));
    assert forall|k: int| i + n <= k < s.len() implies class.has(#[trigger] s[k]) by {
        assert(t[k - i] == s[k]);
    }
}

/// Characters of the class around a text are taken off, and none inside it.
pub proof fn lemma_trimmed_between(a: Seq<char>, m: Seq<char>, b: Seq<char>, class: CharClass)
    requires
        forall|k: int| 0 <= k < a.len() ==> class.has(#[trigger] a[k]),
        forall|k: int| 0 <= k < b.len() ==> class.has(#[trigger] b[k]),
        m.len() > 0 ==> !class.has(m[0]) && !class.has(m.last()),
    ensures
        trimmed(a + m + b, class) == m,
    decreases a.len() + b.len(),
{
    let s = a + m + b;
    if b.len() > 0 {
        assert(s.last() == b.last());
        assert(class.has(b.last()));
        lemma_trimmed_end(s, class);
        assert(s.drop_last() =~= a + m + b.drop_last());
        lemma_trimmed_between(a, m, b.drop_last(), class);
    } else if a.len() > 0 {
        assert(s[0] == a[0]);
        assert(s.drop_first() =~= a.drop_first() + m + b);
        lemma_trimmed_between(a.drop_first(), m, b, class);
    } else {
        assert(s =~= m);
    }
}

proof fn lemma_trim_left(s: Seq<char>, class: CharClass) -> (i: int)
    ensures
        0 <= i <= s.len(),
        trim_left(s, class) == s.skip(i),
        forall|k: int| 0 <= k < i ==> class.has(#[trigger] s[k]),
        i < s.len() ==> !class.has(s[i]),
    decreases s.len(),
{
    if s.len() > 0 && class.has(s[0]) {
        let i = lemma_trim_left(s.drop_first(), class);
        assert(s.drop_first().skip(i) =~= s.skip(i + 1));
        assert forall|k: int| 0 <= k < i + 1 implies class.has(#[trigger] s[k]) by {
            if k > 0 {
                assert(s.drop_first()[k - 1] == s[k]);
            }
        }
        i + 1
    } else {
        assert(s.skip(0) =~= s);
        0
    }
}

proof fn lemma_trim_right(s: Seq<char>, class: CharClass) -> (n: int)
    ensures
        0 <= n <= s.len(),
        trim_right(s, class) == s.take(n),
        forall|k: int| n <= k < s.len() ==> class.has(#[trigger] s[k]),
        n > 0 ==> !class.has(s[n - 1]),
    decreases s.len(),
{
    if s.len() > 0 && class.has(s.last()) {
        let n = lemma_trim_right(s.drop_last(), class);
        assert(s.drop_last().take(n) =~= s.take(n));
        assert forall|k: int| n <= k < s.len() implies class.has(#[trigger] s[k]) by {
            if k < s.len() - 1 {
                assert(s.drop_last()[k] == s[k]);
            }
        }
        n
    } else {
        assert(s.take(s.len() as int) =~= s);
        s.len() as int
    }
}

/// A character of `class` at the end does not matter for what is left.
pub proof fn lemma_trimmed_end(s: Seq<char>, class: CharClass)
    requires
        s.len() > 0,
        class.has(s.last()),
    ensures
        trimmed(s.drop_last(), class) == trimmed(s, class),
    decreases s.len(),
{
    if class.has(s[0]) {
        if s.len() == 1 {
            assert(s.drop_last() =~= s.drop_first());
        } else {
            assert(s.drop_last().drop_first() =~= s.drop_first().drop_last());
            lemma_trimmed_end(s.drop_first(), class);
        }
    }
}

/// Removes the characters of `class` at both ends.
pub fn trim_chars(s: &[char], class: CharClass) -> (r: Vec<char>)
    ensures
        r@ == trimmed(s@, class),
{
    let mut from: usize = 0;
    assert(s@.skip(0) == s@);
    while from < s.len() && class.test(s[from])
        invariant
            from <= s@.len(),
            trim_left(s@, class) == trim_left(s@.skip(from as int), class),
        decreases s@.len() - from,
    {
        assert(s@.skip(from as int).drop_first() == s@.skip(from + 1));
        from = from + 1;
    }
    assert(trim_left(s@, class) == s@.skip(from as int));
    let mut to: usize = s.len();
    assert(s@.subrange(from as int, to as int) == s@.skip(from as int));
    while from < to && class.test(s[to - 1])
        invariant
            from <= to <= s@.len(),
            trim_right(s@.skip(from as int), class) == trim_right(
                s@.subrange(from as int, to as int),
                class,
            ),
        decreases to,
    {
        assert(s@.subrange(from as int, to as int).drop_last() == s@.subrange(
            from as int,
            to - 1,
        ));
        to = to - 1;
    }
    chars_between(s, from, to)
}

// *** Searching

/// Whether `pat` stands in `s` at position `i`.
pub open spec fn occurs_at(s: Seq<char>, pat: Seq<char>, i: int) -> bool {
    0 <= i && i + pat.len() <= s.len() && s.subrange(i, i + pat.len()) == pat
}

/// The first position from `i` on at which `pat` stands in `s`.
pub open spec fn find_from(s: Seq<char>, pat: Seq<char>, i: int) -> Option<int>
    decreases s.len() + 1 - i,
{
    if i + pat.len() > s.len() {
        None
    } else if occurs_at(s, pat, i) {
        Some(i)
    } else {
        find_from(s, pat, i + 1)
    }
}

/// The first position at which `pat` stands in `s`.
pub open spec fn find(s: Seq<char>, pat: Seq<char>) -> Option<int> {
    find_from(s, pat, 0)
}

/// The first position of the character `c` in `s`.
pub open spec fn find_char(s: Seq<char>, c: char) -> Option<int> {
    find(s, seq![c])
}

/// Tests whether `pat` stands in `s` at position `i`.
pub fn stands_at(s: &[char], pat: &[char], i: usize) -> (r: bool)
    requires
        i + pat@.len() <= s@.len(),
    ensures
        r == occurs_at(s@, pat@, i as int),
{
    for j in 0..pat.len()
        invariant
            i + pat@.len() <= s.len(),
            forall|k: int| 0 <= k < j ==> s@[i + k] == pat@[k],
    {
        if s[i + j] != pat[j] {
            assert(s@.subrange(i as int, i + pat@.len())[j as int] != pat@[j as int]);
            return false;
        }
    }
    assert(s@.subrange(i as int, i + pat@.len()) =~= pat@);
    true
}

/// Finds the first position at which `pat` stands in `s`.
pub fn find_chars(s: &[char], pat: &[char]) -> (r: Option<usize>)
    ensures
        match r {
            Some(i) => find(s@, pat@) == Some(i as int) && i + pat@.len() <= s.len(),
            None => find(s@, pat@) is None,
        },
{
    if pat.len() > s.len() {
        return None;
    }
    let last: usize = s.len() - pat.len();
    let mut i: usize = 0;
    while i <= last
        invariant
            last + pat@.len() == s@.len(),
            i <= last + 1,
            find(s@, pat@) == find_from(s@, pat@, i as int),
        decreases last + 1 - i,
    {
        if stands_at(s, pat, i) {
            return Some(i);
        }
        if i == last {
            assert(find_from(s@, pat@, last + 1) is None);
            return None;
        }
        i = i + 1;
    }
    None
}

/// A found position holds the pattern, and no earlier position does; where
/// nothing is found the pattern stands nowhere.
pub proof fn lemma_find_from(s: Seq<char>, pat: Seq<char>, i: int)
    requires
        0 <= i,
    ensures
        match find_from(s, pat, i) {
            Some(k) => {
                &&& i <= k
                &&& occurs_at(s, pat, k)
                &&& forall|j: int| i <= j < k ==> !occurs_at(s, pat, j)
            },
            None => forall|j: int| i <= j ==> !occurs_at(s, pat, j),
        },
    decreases s.len() + 1 - i,
{
    if i + pat.len() <= s.len() && !occurs_at(s, pat, i) {
        lemma_find_from(s, pat, i + 1);
    }
}

/// A position that holds the pattern while no earlier one does is the one found.
pub proof fn lemma_find_is(s: Seq<char>, pat: Seq<char>, k: int)
    requires
        occurs_at(s, pat, k),
        forall|j: int| 0 <= j < k ==> !occurs_at(s, pat, j),
    ensures
        find(s, pat) == Some(k),
{
    lemma_find_from(s, pat, 0);
    match find(s, pat) {
        Some(i) => {
            assert(occurs_at(s, pat, i));
            if i < k {
                assert(!occurs_at(s, pat, i));
            }
        },
        None => {
            assert(!occurs_at(s, pat, k));
        },
    }
}

/// The first position of a character is where it stands and no earlier one
/// holds it.
pub proof fn lemma_find_char(s: Seq<char>, c: char)
    ensures
        match find_char(s, c) {
            Some(k) => {
                &&& 0 <= k < s.len()
                &&& s[k] == c
                &&& forall|j: int| 0 <= j < k ==> s[j] != c
            },
            None => !s.contains(c),
        },
{
    lemma_find_from(s, seq![c], 0);
    assert forall|j: int| 0 <= j < s.len() implies (occurs_at(s, seq![c], j) <==> s[j] == c) by {
        assert(s.subrange(j, j + 1) =~= seq![s[j]]);
        if occurs_at(s, seq![c], j) {
            assert(seq![s[j]][0] == seq![c][0]);
        }
    }
    match find_char(s, c) {
        Some(k) => {
            assert(occurs_at(s, seq![c], k));
        },
        None => {
            assert forall|j: int| 0 <= j < s.len() implies s[j] != c by {
                assert(!occurs_at(s, seq![c], j));
            }
        },
    }
}

/// A text that starts with a part free of `c`, followed by `c`, has its first
/// `c` right behind that part.
pub proof fn lemma_find_char_after(head: Seq<char>, c: char, tail: Seq<char>)
    requires
        !head.contains(c),
    ensures
        find_char(head.push(c) + tail, c) == Some(head.len() as int),
{
    let s = head.push(c) + tail;
    lemma_find_char(s, c);
    assert(s[head.len() as int] == c);
    match find_char(s, c) {
        Some(k) => {
            if k < head.len() {
                assert(head[k] == c);
            }
        },
        None => {
            assert(s.contains(s[head.len() as int]));
        },
    }
}

/// The part of a text before the first `c` and the part behind it.
pub open spec fn split_once(s: Seq<char>, c: char) -> Option<(Seq<char>, Seq<char>)> {
    match find_char(s, c) {
        Some(k) => Some((s.take(k), s.skip(k + 1))),
        None => None,
    }
}

/// Splits a text at its first `c`.
pub fn split_once_chars(s: &[char], c: char) -> (r: Option<(Vec<char>, Vec<char>)>)
    ensures
        match r {
            Some((a, b)) => split_once(s@, c) == Some((a@, b@)),
            None => split_once(s@, c) is None,
        },
{
    let pat: [char; 1] = [c];
    assert(pat@ =~= seq![c]);
    match find_chars(s, &pat) {
        Some(k) => {
            let a = chars_between(s, 0, k);
            let b = chars_between(s, k + 1, s.len());
            assert(a@ =~= s@.take(k as int));
            assert(b@ =~= s@.skip(k + 1));
            Some((a, b))
        },
        None => None,
    }
}

/// `s` with every `pat`, from left to right and without overlap, replaced by
/// `with`.
pub open spec fn replaced(s: Seq<char>, pat: Seq<char>, with: Seq<char>) -> Seq<char>
    recommends
        pat.len() > 0,
    decreases s.len(),
{
    if pat.len() == 0 || s.len() < pat.len() {
        s
    } else if occurs_at(s, pat, 0) {
        with + replaced(s.skip(pat.len() as int), pat, with)
    } else {
        seq![s[0]] + replaced(s.drop_first(), pat, with)
    }
}

/// A pattern is found at the first place from which on the text starts with it.
pub proof fn lemma_find(s: Seq<char>, pat: Seq<char>)
    ensures
        match find(s, pat) {
            Some(k) => {
                &&& 0 <= k <= s.len()
                &&& pat.is_prefix_of(s.skip(k))
                &&& forall|j: int| 0 <= j < k ==> !pat.is_prefix_of(#[trigger] s.skip(j))
            },
            None => forall|j: int| 0 <= j <= s.len() ==> !pat.is_prefix_of(#[trigger] s.skip(j)),
        },
{
    lemma_find_from(s, pat, 0);
    assert forall|j: int| 0 <= j <= s.len() implies pat.is_prefix_of(#[trigger] s.skip(j))
        == occurs_at(s, pat, j) by {
        if j + pat.len() <= s.len() {
            assert(s.skip(j).subrange(0, pat.len() as int) =~= s.subrange(j, j + pat.len()));
        }
    }
}

/// Everything before the first place of a pattern is kept, the pattern there
/// gives way, and what follows is treated in the same way. A text without the
/// pattern stays as it is.
pub proof fn lemma_replaced(s: Seq<char>, pat: Seq<char>, with: Seq<char>)
    requires
        pat.len() > 0,
    ensures
        match find(s, pat) {
            Some(k) => replaced(s, pat, with) == s.take(k) + with + replaced(
                s.skip(k + pat.len()),
                pat,
                with,
            ),
            None => replaced(s, pat, with) == s,
        },
    decreases s.len(),
{
    lemma_find_from(s, pat, 0);
    if s.len() < pat.len() {
    } else if occurs_at(s, pat, 0) {
        lemma_find_is(s, pat, 0);
        assert(s.take(0) + with =~= with);
    } else {
        let t = s.drop_first();
        lemma_replaced(t, pat, with);
        lemma_find_from(t, pat, 0);
        assert forall|j: int| 0 <= j implies (#[trigger] occurs_at(t, pat, j)) == occurs_at(
            s,
            pat,
            j + 1,
        ) by {
            if j + pat.len() <= t.len() {
                assert(t.subrange(j, j + pat.len()) =~= s.subrange(j + 1, j + 1 + pat.len()));
            }
        }
        match find(t, pat) {
            Some(k) => {
                assert(occurs_at(t, pat, k));
                assert forall|j: int| 0 <= j < k + 1 implies !occurs_at(s, pat, j) by {
                    if j > 0 {
                        assert(!occurs_at(t, pat, j - 1));
                    }
                }
                lemma_find_is(s, pat, k + 1);
                assert(s.skip(k + 1 + pat.len()) =~= t.skip(k + pat.len()));
                assert(seq![s[0]] + (t.take(k) + with + replaced(t.skip(k + pat.len()), pat, with))
                    =~= s.take(k + 1) + with + replaced(t.skip(k + pat.len()), pat, with));
            },
            None => {
                match find(s, pat) {
                    Some(k) => {
                        assert(k > 0);
                        assert(!occurs_at(t, pat, k - 1));
                    },
                    None => {},
                }
                assert(seq![s[0]] + t =~= s);
            },
        }
    }
}

/// A text is split at its first separator and at no other.
pub proof fn lemma_split_once(a: Seq<char>, b: Seq<char>, c: char)
    requires
        !a.contains(c),
    ensures
        split_once(a.push(c) + b, c) == Some((a, b)),
        split_once(a, c) is None,
{
    let s = a.push(c) + b;
    lemma_find_char_after(a, c, b);
    assert(s.take(a.len() as int) =~= a);
    assert(s.skip(a.len() as int + 1) =~= b);
    lemma_find_char(a, c);
}

/// Replaces every `pat` by `with`.
pub fn replace_chars(s: &[char], pat: &[char], with: &[char]) -> (r: Vec<char>)
    requires
        pat@.len() > 0,
    ensures
        r@ == replaced(s@, pat@, with@),
{
    let mut r: Vec<char> = Vec::new();
    let mut i: usize = 0;
    assert(s@.skip(0) == s@);
    assert(replaced(s@, pat@, with@) =~= r@ + replaced(s@.skip(0), pat@, with@));
    while i < s.len()
        invariant
            pat@.len() > 0,
            i <= s@.len(),
            replaced(s@, pat@, with@) == r@ + replaced(s@.skip(i as int), pat@, with@),
        decreases s@.len() - i,
    {
        let ghost before = r@;
        let ghost rest = s@.skip(i as int);
        if pat.len() <= s.len() - i && stands_at(s, pat, i) {
            assert(rest.subrange(0, pat@.len() as int) =~= s@.subrange(i as int, i + pat@.len()));
            for j in 0..with.len()
                invariant
                    r@ == before + with@.take(j as int),
            {
                r.push(with[j]);
            }
            assert(with@.take(with@.len() as int) == with@);
            assert(rest.skip(pat@.len() as int) =~= s@.skip(i + pat@.len()));
            assert(r@ + replaced(s@.skip(i + pat@.len()), pat@, with@) =~= before + (with@
                + replaced(s@.skip(i + pat@.len()), pat@, with@)));
            i = i + pat.len();
        } else {
            r.push(s[i]);
            assert(rest.drop_first() =~= s@.skip(i + 1));
            proof {
                if rest.len() >= pat@.len() {
                    assert(rest.subrange(0, pat@.len() as int) =~= s@.subrange(i as int, i + pat@.len()));
                    assert(r@ + replaced(s@.skip(i + 1), pat@, with@) =~= before + (seq![rest[0]]
                        + replaced(s@.skip(i + 1), pat@, with@)));
                } else {
                    assert(replaced(s@.skip(i + 1), pat@, with@) == s@.skip(i + 1));
                    assert(r@ + s@.skip(i + 1) =~= before + rest);
                }
            }
            i = i + 1;
        }
    }
    assert(s@.skip(s@.len() as int) =~= Seq::<char>::empty());
    assert(r@ + Seq::<char>::empty() =~= r@);
    r
}

} // verus!
