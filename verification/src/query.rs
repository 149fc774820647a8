//! Term lookup over the finalized index: case folding of the query, and the
//! deterministic presentation order of matches — descending hit count, ties
//! broken by ascending title, at most `MAX_MATCHES` entries shown.
use vstd::prelude::*;
use vstd::seq_lib::lemma_multiset_commutative;
use crate::assoc::{assoc_map, distinct_keys};
use crate::index::{match_views, Article, RssIndex};

verus! {

/// Entries shown for one query at most.
pub const MAX_MATCHES: usize = 10;

/// What `str::to_lowercase` returns for a string: a function of its
/// characters alone.
pub uninterp spec fn lower_of(s: Seq<char>) -> Seq<char>;

/// Relies on str::to_lowercase: the result depends on the characters alone.
#[verifier::external_body]
fn lowercase(s: &str) -> (r: String)
    ensures
        r@ == lower_of(s@),
{
    s.to_lowercase()
}

/// Look a raw query up: the query is case-folded, and the folded word's match
/// list is returned exactly when the index holds that word.
pub fn search<'a>(idx: &'a RssIndex, raw: &str) -> (r: Option<&'a Vec<(Article, u32)>>)
    requires
        idx.wf(),
    ensures
        match r {
            Some(v) => {
                &&& idx@.contains_key(lower_of(raw@))
                &&& assoc_map(match_views(v@)) == idx@[lower_of(raw@)]
                &&& distinct_keys(match_views(v@))
            },
            None => !idx@.contains_key(lower_of(raw@)),
        },
{
    let folded = lowercase(raw);
    idx.lookup(&folded)
}

/// Case-insensitivity: two queries that fold to the same word see the same
/// match set in any index.
pub proof fn lemma_case_insensitive(
    idx: Map<Seq<char>, Map<(Seq<char>, Seq<char>), u32>>,
    q1: Seq<char>,
    q2: Seq<char>,
)
    requires
        lower_of(q1) == lower_of(q2),
    ensures
        idx.contains_key(lower_of(q1)) <==> idx.contains_key(lower_of(q2)),
        idx.contains_key(lower_of(q1)) ==> idx[lower_of(q1)] == idx[lower_of(q2)],
{
}

/// Lexicographic order on character sequences, the order of code points.
pub open spec fn lex_le(a: Seq<char>, b: Seq<char>) -> bool
    decreases a.len(),
{
    if a.len() == 0 {
        true
    } else if b.len() == 0 {
        false
    } else if a[0] < b[0] {
        true
    } else if b[0] < a[0] {
        false
    } else {
        lex_le(a.skip(1), b.skip(1))
    }
}

proof fn lemma_lex_le_total(a: Seq<char>, b: Seq<char>)
    ensures
        lex_le(a, b) || lex_le(b, a),
    decreases a.len(),
{
    if a.len() > 0 && b.len() > 0 && !(a[0] < b[0]) && !(b[0] < a[0]) {
        lemma_lex_le_total(a.skip(1), b.skip(1));
    }
}

proof fn lemma_lex_le_trans(a: Seq<char>, b: Seq<char>, c: Seq<char>)
    requires
        lex_le(a, b),
        lex_le(b, c),
    ensures
        lex_le(a, c),
    decreases a.len(),
{
    if a.len() > 0 && b.len() > 0 && c.len() > 0 && !(a[0] < b[0]) && !(b[0] < a[0]) && !(b[0]
        < c[0]) && !(c[0] < b[0]) {
        lemma_lex_le_trans(a.skip(1), b.skip(1), c.skip(1));
    }
}

/// Presentation order: more hits first, equal hits in title order.
pub open spec fn ranked_before(x: (Article, u32), y: (Article, u32)) -> bool {
    x.1 > y.1 || (x.1 == y.1 && lex_le(x.0.title@, y.0.title@))
}

/// A match list in presentation order.
pub open spec fn sorted_matches(s: Seq<(Article, u32)>) -> bool {
    forall|i: int, j: int| 0 <= i < j < s.len() ==> ranked_before(s[i], s[j])
}

proof fn lemma_ranked_total(x: (Article, u32), y: (Article, u32))
    ensures
        ranked_before(x, y) || ranked_before(y, x),
{
    lemma_lex_le_total(x.0.title@, y.0.title@);
}

proof fn lemma_ranked_trans(x: (Article, u32), y: (Article, u32), z: (Article, u32))
    requires
        ranked_before(x, y),
        ranked_before(y, z),
    ensures
        ranked_before(x, z),
{
    if x.1 == y.1 && y.1 == z.1 {
        lemma_lex_le_trans(x.0.title@, y.0.title@, z.0.title@);
    }
}

proof fn lemma_to_multiset_insert<A>(s: Seq<A>, p: int, x: A)
    requires
        0 <= p <= s.len(),
    ensures
        s.insert(p, x).to_multiset() == s.to_multiset().insert(x),
{
    broadcast use vstd::seq_lib::group_to_multiset_ensures;

    let a = s.subrange(0, p);
    let b = s.subrange(p, s.len() as int);
    assert(s.insert(p, x) =~= a.push(x) + b);
    assert(s =~= a + b);
    lemma_multiset_commutative(a.push(x), b);
    lemma_multiset_commutative(a, b);
    assert(a.push(x).to_multiset() == a.to_multiset().insert(x));
    assert(a.to_multiset().insert(x).add(b.to_multiset()) =~= a.to_multiset().add(
        b.to_multiset(),
    ).insert(x));
}

/// Whether `a` comes no later than `b` in code-point order.
fn str_le(a: &str, b: &str) -> (r: bool)
    ensures
        r == lex_le(a@, b@),
{
    let la = a.unicode_len();
    let lb = b.unicode_len();
    let end = if la < lb {
        la
    } else {
        lb
    };
    let mut i: usize = 0;
    proof {
        assert(a@.skip(0) =~= a@);
        assert(b@.skip(0) =~= b@);
    }
    while i < end
        invariant
            la == a@.len(),
            lb == b@.len(),
            end == if la < lb {
                la
            } else {
                lb
            },
            0 <= i <= end,
            forall|k: int| 0 <= k < i ==> a@[k] == b@[k],
            lex_le(a@, b@) == lex_le(a@.skip(i as int), b@.skip(i as int)),
        decreases end - i,
    {
        let ca = a.get_char(i);
        let cb = b.get_char(i);
        if (ca as u32) < (cb as u32) {
            proof {
                assert(a@.skip(i as int)[0] == a@[i as int]);
                assert(b@.skip(i as int)[0] == b@[i as int]);
            }
            return true;
        }
        if (cb as u32) < (ca as u32) {
            proof {
                assert(a@.skip(i as int)[0] == a@[i as int]);
                assert(b@.skip(i as int)[0] == b@[i as int]);
            }
            return false;
        }
        proof {
            assert(a@.skip(i as int)[0] == a@[i as int]);
            assert(b@.skip(i as int)[0] == b@[i as int]);
            assert(a@.skip(i as int).skip(1) =~= a@.skip(i + 1));
            assert(b@.skip(i as int).skip(1) =~= b@.skip(i + 1));
        }
        i = i + 1;
    }
    proof {
        assert(a@.skip(i as int).len() == la - i);
        assert(b@.skip(i as int).len() == lb - i);
    }
    la <= lb
}

/// Whether `x` stands no later than `y` in presentation order.
fn comes_before(x: &(Article, u32), y: &(Article, u32)) -> (r: bool)
    ensures
        r == ranked_before(*x, *y),
{
    if x.1 > y.1 {
        true
    } else if x.1 == y.1 {
        str_le(x.0.title.as_str(), y.0.title.as_str())
    } else {
        false
    }
}

/// The place in a sorted list at which `x` belongs: everything before it
/// comes before `x`, and what stands at it does not.
fn insert_pos(sorted: &Vec<(Article, u32)>, x: &(Article, u32)) -> (p: usize)
    requires
        sorted_matches(sorted@),
    ensures
        0 <= p <= sorted@.len(),
        forall|k: int| 0 <= k < p ==> ranked_before(#[trigger] sorted@[k], *x),
        p < sorted@.len() ==> !ranked_before(sorted@[p as int], *x),
{
    let n = sorted.len();
    let mut p: usize = 0;
    while p < n
        invariant
            n == sorted@.len(),
            0 <= p <= n,
            forall|k: int| 0 <= k < p ==> ranked_before(#[trigger] sorted@[k], *x),
        decreases n - p,
    {
        if !comes_before(&sorted[p], x) {
            return p;
        }
        p = p + 1;
    }
    p
}

/// The matches to present: in presentation order, a rearrangement of the
/// given match list (same articles, same counts), truncated to the first
/// `MAX_MATCHES` entries.
pub fn top_matches(ms: &Vec<(Article, u32)>) -> (r: Vec<(Article, u32)>)
    ensures
        r@.len() == if ms@.len() < MAX_MATCHES {
            ms@.len() as int
        } else {
            MAX_MATCHES as int
        },
        sorted_matches(r@),
        exists|s: Seq<(Article, u32)>|
            #[trigger] match_views(s).to_multiset() == match_views(ms@).to_multiset()
                && sorted_matches(s) && r@ == s.take(r@.len() as int),
{
    broadcast use vstd::seq_lib::group_to_multiset_ensures;

    let n = ms.len();
    let mut sorted: Vec<(Article, u32)> = Vec::new();
    let mut i: usize = 0;
    while i < n
        invariant
            n == ms@.len(),
            0 <= i <= n,
            sorted@.len() == i,
            sorted_matches(sorted@),
            match_views(sorted@).to_multiset() == match_views(ms@.take(i as int)).to_multiset(),
        decreases n - i,
    {
        let x = (ms[i].0.duplicate(), ms[i].1);
        let ghost xv = ((x.0.title@, x.0.url@), x.1);
        let ghost pre = sorted@;
        let p = insert_pos(&sorted, &x);
        proof {
            if p < sorted@.len() {
                lemma_ranked_total(sorted@[p as int], x);
            }
        }
        sorted.insert(p, x);
        proof {
            assert(match_views(sorted@) =~= match_views(pre).insert(p as int, xv));
            lemma_to_multiset_insert(match_views(pre), p as int, xv);
            assert(xv == match_views(ms@)[i as int]);
            assert(match_views(ms@.take(i + 1)) =~= match_views(ms@.take(i as int)).push(xv));
            assert(match_views(pre).insert(p as int, xv).to_multiset() == match_views(
                pre,
            ).to_multiset().insert(xv));
            assert(match_views(sorted@).to_multiset() == match_views(pre).to_multiset().insert(
                xv,
            ));
            vstd::seq_lib::to_multiset_build(match_views(ms@.take(i as int)), xv);
            assert(match_views(ms@.take(i as int)).push(xv).to_multiset() == match_views(
                ms@.take(i as int),
            ).to_multiset().insert(xv));
            assert(match_views(sorted@).to_multiset() == match_views(
                ms@.take(i + 1),
            ).to_multiset());
            assert forall|u: int, v: int| 0 <= u < v < sorted@.len() implies ranked_before(
                sorted@[u],
                sorted@[v],
            ) by {
                if u == p && v > p + 1 {
                    lemma_ranked_trans(x, pre[p as int], pre[v - 1]);
                }
            }
        }
        i = i + 1;
    }
    proof {
        assert(ms@.take(n as int) =~= ms@);
        assert(match_views(sorted@).to_multiset() == match_views(ms@).to_multiset());
    }
    let ghost full = sorted@;
    proof {
        assert(full.take(full.len() as int) =~= full);
    }
    while sorted.len() > MAX_MATCHES
        invariant
            sorted@.len() <= full.len(),
            sorted@ == full.take(sorted@.len() as int),
            sorted_matches(full),
            match_views(full).to_multiset() == match_views(ms@).to_multiset(),
            full.len() == ms@.len(),
            sorted@.len() >= MAX_MATCHES || sorted@.len() == full.len(),
        decreases sorted@.len(),
    {
        let ghost lpre = sorted@.len() as int;
        sorted.pop();
        proof {
            assert(sorted@ == full.take(lpre).subrange(0, lpre - 1));
            assert(full.take(lpre - 1) =~= full.take(lpre).subrange(0, lpre - 1));
        }
    }
    proof {
        assert(sorted@ == full.take(sorted@.len() as int));
        assert forall|u: int, v: int| 0 <= u < v < sorted@.len() implies ranked_before(
            sorted@[u],
            sorted@[v],
        ) by {
            assert(sorted@[u] == full[u]);
            assert(sorted@[v] == full[v]);
        }
        assert(match_views(full).to_multiset() == match_views(ms@).to_multiset()
            && sorted_matches(full) && sorted@ == full.take(sorted@.len() as int));
    }
    sorted
}

/// Whether the query loop announces a truncated list: only when more matched
/// than are shown.
pub fn use_top_header(n_matches: usize) -> (r: bool)
    ensures
        r <==> n_matches > MAX_MATCHES,
{
    n_matches > MAX_MATCHES
}

/// The unit word beside a hit count: singular exactly for one hit.
pub fn times_label(count: u32) -> (r: &'static str)
    ensures
        count == 1 ==> r@ == "time"@,
        count != 1 ==> r@ == "times"@,
{
    if count == 1 {
        "time"
    } else {
        "times"
    }
}

} // verus!
