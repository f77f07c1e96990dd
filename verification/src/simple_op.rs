//! Simple character-based operations and their transformation.

use crate::types::SiteId;
use vstd::prelude::*;

verus! {

/// A simple character-based operation.
#[derive(Debug, Clone, Copy, PartialEq, Eq, Structural)]
pub enum SimpleOp {
    /// Insert a character at a position.
    Ins(u64, char),
    /// Delete the character at a position. Without a character there is
    /// nothing left to delete.
    Del(u64, Option<char>),
}

/// Order of positions; the site decides between equal positions.
pub open spec fn pos_less(pos1: u64, pos2: u64, site1: SiteId, site2: SiteId) -> bool {
    pos1 < pos2 || (pos1 == pos2 && site1 < site2)
}

/// Whether the first position comes before the second; the smaller site goes
/// first where the positions are equal.
pub fn pos_less_than(pos1: u64, pos2: u64, site1: &SiteId, site2: &SiteId) -> (r: bool)
    ensures
        r == pos_less(pos1, pos2, *site1, *site2),
{
    if pos1 == pos2 {
        *site1 < *site2
    } else {
        pos1 < pos2
    }
}

/// Where a position moves when `base` is done first. `first` tells whether the
/// position comes before that of `base`.
pub open spec fn moved(pos: u64, base: SimpleOp, first: bool) -> int {
    match base {
        _ if first => pos as int,
        SimpleOp::Ins(..) => pos + 1,
        SimpleOp::Del(_, Some(_)) => pos - 1,
        SimpleOp::Del(_, None) => pos as int,
    }
}

impl SimpleOp {
    /// The position of the operation.
    pub open spec fn pos(self) -> u64 {
        match self {
            SimpleOp::Ins(p, _) => p,
            SimpleOp::Del(p, _) => p,
        }
    }

    /// Whether both operations delete the same character.
    pub open spec fn same_delete(self, base: SimpleOp) -> bool {
        self is Del && self.pos() == base.pos() && (base matches SimpleOp::Del(_, Some(_)))
    }

    /// Whether the operation comes before `base`: by position, and among equal
    /// positions by site, except that two deletions go by position alone.
    pub open spec fn before(self, base: SimpleOp, self_site: SiteId, base_site: SiteId) -> bool {
        if self is Del && base is Del {
            self.pos() < base.pos()
        } else {
            pos_less(self.pos(), base.pos(), self_site, base_site)
        }
    }

    /// Where the operation lands once `base` has been done.
    pub open spec fn target(self, base: SimpleOp, self_site: SiteId, base_site: SiteId) -> int {
        if self.same_delete(base) {
            self.pos() as int
        } else {
            moved(self.pos(), base, self.before(base, self_site, base_site))
        }
    }

    /// The operation with the same effect once `base` has been done.
    pub open spec fn transformed(
        self,
        base: SimpleOp,
        self_site: SiteId,
        base_site: SiteId,
    ) -> SimpleOp {
        let p = self.target(base, self_site, base_site) as u64;
        match self {
            SimpleOp::Ins(_, c) => SimpleOp::Ins(p, c),
            SimpleOp::Del(_, c) => SimpleOp::Del(
                p,
                if self.same_delete(base) {
                    None
                } else {
                    c
                },
            ),
        }
    }

    /// Transforms the operation against `base`, which was made concurrently
    /// and is done first. Deleting what `base` deleted becomes a deletion of
    /// nothing.
    pub fn transform(&self, base: &SimpleOp, self_site: &SiteId, base_site: &SiteId) -> (r:
        SimpleOp)
        requires
            0 <= self.target(*base, *self_site, *base_site) <= u64::MAX,
        ensures
            r == self.transformed(*base, *self_site, *base_site),
    {
        match (self, base) {
            (SimpleOp::Ins(pos1, char1), SimpleOp::Ins(pos2, _)) => {
                if pos_less_than(*pos1, *pos2, self_site, base_site) {
                    SimpleOp::Ins(*pos1, *char1)
                } else {
                    SimpleOp::Ins(*pos1 + 1, *char1)
                }
            },
            (SimpleOp::Ins(pos1, char1), SimpleOp::Del(pos2, Some(_))) => {
                if pos_less_than(*pos1, *pos2, self_site, base_site) {
                    SimpleOp::Ins(*pos1, *char1)
                } else {
                    SimpleOp::Ins(*pos1 - 1, *char1)
                }
            },
            (SimpleOp::Ins(pos1, char1), SimpleOp::Del(_, None)) => SimpleOp::Ins(*pos1, *char1),
            (SimpleOp::Del(pos1, char1), SimpleOp::Ins(pos2, _)) => {
                if pos_less_than(*pos1, *pos2, self_site, base_site) {
                    SimpleOp::Del(*pos1, *char1)
                } else {
                    SimpleOp::Del(*pos1 + 1, *char1)
                }
            },
            (SimpleOp::Del(pos1, char1), SimpleOp::Del(pos2, Some(_))) => {
                if *pos1 < *pos2 {
                    SimpleOp::Del(*pos1, *char1)
                } else if *pos1 == *pos2 {
                    SimpleOp::Del(*pos1, None)
                } else {
                    SimpleOp::Del(*pos1 - 1, *char1)
                }
            },
            (SimpleOp::Del(pos1, char1), SimpleOp::Del(_, None)) => SimpleOp::Del(*pos1, *char1),
        }
    }

    /// Whether the operation can be done on a document: an insertion lies within
    /// it or at its end, and a deletion names the character that stands there.
    pub open spec fn fits(self, doc: Seq<char>) -> bool {
        match self {
            SimpleOp::Ins(p, _) => p <= doc.len(),
            SimpleOp::Del(p, Some(c)) => p < doc.len() && doc[p as int] == c,
            SimpleOp::Del(_, None) => true,
        }
    }

    /// The document after the operation.
    pub open spec fn apply(self, doc: Seq<char>) -> Seq<char> {
        match self {
            SimpleOp::Ins(p, c) => doc.insert(p as int, c),
            SimpleOp::Del(p, Some(_)) => doc.remove(p as int),
            SimpleOp::Del(_, None) => doc,
        }
    }
}

/// Whether two operations at one position cannot be told apart by their sites:
/// insertions of different characters by one site, or an insertion whose site
/// does not put it in front of the deletion of a character.
pub open spec fn clash(a: SimpleOp, b: SimpleOp, site_a: SiteId, site_b: SiteId) -> bool {
    a.pos() == b.pos() && match (a, b) {
        (SimpleOp::Ins(_, x), SimpleOp::Ins(_, y)) => site_a == site_b && x != y,
        (SimpleOp::Ins(..), SimpleOp::Del(_, Some(_))) => site_a >= site_b,
        (SimpleOp::Del(_, Some(_)), SimpleOp::Ins(..)) => site_b >= site_a,
        _ => false,
    }
}

proof fn lemma_insert_insert(doc: Seq<char>, p: int, x: char, q: int, y: char)
    requires
        0 <= p <= q <= doc.len(),
    ensures
        doc.insert(p, x).insert(q + 1, y) == doc.insert(q, y).insert(p, x),
{
    assert(doc.insert(p, x).insert(q + 1, y) =~= doc.insert(q, y).insert(p, x));
}

proof fn lemma_insert_remove(doc: Seq<char>, p: int, x: char, q: int)
    requires
        0 <= p <= doc.len(),
        0 <= q < doc.len(),
    ensures
        p <= q ==> doc.insert(p, x).remove(q + 1) == doc.remove(q).insert(p, x),
        q < p ==> doc.insert(p, x).remove(q) == doc.remove(q).insert(p - 1, x),
        p <= q ==> doc.insert(p, x)[q + 1] == doc[q],
        q < p ==> doc.insert(p, x)[q] == doc[q],
{
    if p <= q {
        assert(doc.insert(p, x).remove(q + 1) =~= doc.remove(q).insert(p, x));
    } else {
        assert(doc.insert(p, x).remove(q) =~= doc.remove(q).insert(p - 1, x));
    }
}

proof fn lemma_remove_remove(doc: Seq<char>, p: int, q: int)
    requires
        0 <= p < q < doc.len(),
    ensures
        doc.remove(p).remove(q - 1) == doc.remove(q).remove(p),
        doc.remove(p)[q - 1] == doc[q],
        doc.remove(q)[p] == doc[p],
{
    assert(doc.remove(p).remove(q - 1) =~= doc.remove(q).remove(p));
}

/// An insertion stays where it is if it comes before the operation that is done
/// first, and moves by one behind it. The character is kept.
pub proof fn lemma_insertion_moves(p: u64, c: char, q: u64, d: char, mine: SiteId, other: SiteId)
    ensures
        p < q || (p == q && mine < other) ==> SimpleOp::Ins(p, c).transformed(
            SimpleOp::Ins(q, d),
            mine,
            other,
        ) == SimpleOp::Ins(p, c) && SimpleOp::Ins(p, c).transformed(
            SimpleOp::Del(q, Some(d)),
            mine,
            other,
        ) == SimpleOp::Ins(p, c),
        (p > q || (p == q && mine >= other)) && p < u64::MAX ==> SimpleOp::Ins(p, c).transformed(
            SimpleOp::Ins(q, d),
            mine,
            other,
        ) == SimpleOp::Ins((p + 1) as u64, c),
        (p > q || (p == q && mine >= other)) && p > 0 ==> SimpleOp::Ins(p, c).transformed(
            SimpleOp::Del(q, Some(d)),
            mine,
            other,
        ) == SimpleOp::Ins((p - 1) as u64, c),
        SimpleOp::Ins(p, c).transformed(SimpleOp::Del(q, None), mine, other) == SimpleOp::Ins(p, c),
{
}

/// A deletion moves in the same way. Where both sites delete the same character
/// nothing is left to delete, and a deletion of nothing moves nothing.
pub proof fn lemma_deletion_moves(
    p: u64,
    c: Option<char>,
    q: u64,
    d: char,
    mine: SiteId,
    other: SiteId,
)
    ensures
        p < q || (p == q && mine < other) ==> SimpleOp::Del(p, c).transformed(
            SimpleOp::Ins(q, d),
            mine,
            other,
        ) == SimpleOp::Del(p, c),
        (p > q || (p == q && mine >= other)) && p < u64::MAX ==> SimpleOp::Del(p, c).transformed(
            SimpleOp::Ins(q, d),
            mine,
            other,
        ) == SimpleOp::Del((p + 1) as u64, c),
        p < q ==> SimpleOp::Del(p, c).transformed(SimpleOp::Del(q, Some(d)), mine, other)
            == SimpleOp::Del(p, c),
        p > q ==> SimpleOp::Del(p, c).transformed(SimpleOp::Del(q, Some(d)), mine, other)
            == SimpleOp::Del((p - 1) as u64, c),
        p == q ==> SimpleOp::Del(p, c).transformed(SimpleOp::Del(q, Some(d)), mine, other)
            == SimpleOp::Del(p, None),
        SimpleOp::Del(p, c).transformed(SimpleOp::Del(q, None), mine, other) == SimpleOp::Del(p, c),
{
}

/// What an operation does to a document: one character more at its position,
/// one less there, or nothing.
pub proof fn lemma_operation_done(doc: Seq<char>, p: u64, c: char)
    requires
        p <= doc.len(),
    ensures
        SimpleOp::Ins(p, c).fits(doc),
        SimpleOp::Ins(p, c).apply(doc) == doc.subrange(0, p as int) + seq![c] + doc.subrange(
            p as int,
            doc.len() as int,
        ),
        SimpleOp::Del(p, Some(c)).fits(doc) <==> p < doc.len() && doc[p as int] == c,
        p < doc.len() ==> SimpleOp::Del(p, Some(c)).apply(doc) == doc.subrange(0, p as int)
            + doc.subrange(p + 1, doc.len() as int),
        SimpleOp::Del(p, None).fits(doc),
        SimpleOp::Del(p, None).apply(doc) == doc,
{
    assert(SimpleOp::Ins(p, c).apply(doc) =~= doc.subrange(0, p as int) + seq![c] + doc.subrange(
        p as int,
        doc.len() as int,
    ));
    if p < doc.len() {
        assert(SimpleOp::Del(p, Some(c)).apply(doc) =~= doc.subrange(0, p as int) + doc.subrange(
            p + 1,
            doc.len() as int,
        ));
    }
}

/// Convergence: two sites that made one operation each on the same document,
/// and then do the other's operation transformed against their own, end up
/// with the same document; and each transformed operation fits where it is
/// done. Left out are operations that clash, and those whose transformed
/// position would not fit its type.
pub proof fn lemma_convergence(
    doc: Seq<char>,
    a: SimpleOp,
    b: SimpleOp,
    site_a: SiteId,
    site_b: SiteId,
)
    requires
        a.fits(doc),
        b.fits(doc),
        !clash(a, b, site_a, site_b),
        a.target(b, site_a, site_b) <= u64::MAX,
        b.target(a, site_b, site_a) <= u64::MAX,
    ensures
        b.transformed(a, site_b, site_a).fits(a.apply(doc)),
        a.transformed(b, site_a, site_b).fits(b.apply(doc)),
        b.transformed(a, site_b, site_a).apply(a.apply(doc)) == a.transformed(
            b,
            site_a,
            site_b,
        ).apply(b.apply(doc)),
{
    match (a, b) {
        (SimpleOp::Ins(p, x), SimpleOp::Ins(q, y)) => {
            if pos_less(p, q, site_a, site_b) {
                lemma_insert_insert(doc, p as int, x, q as int, y);
            } else {
                lemma_insert_insert(doc, q as int, y, p as int, x);
            }
        },
        (SimpleOp::Ins(p, x), SimpleOp::Del(q, Some(_))) => {
            lemma_insert_remove(doc, p as int, x, q as int);
        },
        (SimpleOp::Del(p, Some(_)), SimpleOp::Ins(q, y)) => {
            lemma_insert_remove(doc, q as int, y, p as int);
        },
        (SimpleOp::Del(p, Some(_)), SimpleOp::Del(q, Some(_))) => {
            if p < q {
                lemma_remove_remove(doc, p as int, q as int);
            } else if q < p {
                lemma_remove_remove(doc, q as int, p as int);
            }
        },
        _ => {},
    }
}

/// Operations that fit a document can be transformed against each other, unless
/// they clash or a position would not fit its type.
pub proof fn lemma_transform_defined(
    doc: Seq<char>,
    a: SimpleOp,
    b: SimpleOp,
    site_a: SiteId,
    site_b: SiteId,
)
    requires
        a.fits(doc),
        b.fits(doc),
        a.pos() < u64::MAX,
        !clash(a, b, site_a, site_b),
    ensures
        0 <= a.target(b, site_a, site_b) <= u64::MAX,
{
}

} // verus!
