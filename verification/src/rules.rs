//! Substitution rules: the `WordPair` directive, sequential application of
//! an ordered rule list, and case-variant expansion of a rule set.

use vstd::prelude::*;
use crate::text::{replaced, contains_sub, replace_all, has_match};
use crate::strings::{chars_of, string_from_chars, to_lower, to_upper, lower_of, upper_of};

verus! {

/// A literal substitution directive: every occurrence of `old` is to become
/// `new`. `old` is meant to be non-empty; a pair with an empty `old` is a
/// no-op throughout the library.
#[derive(Clone)]
pub struct WordPair {
    /// The searched string.
    pub old: String,
    /// The replacement string.
    pub new: String,
}

/// The character sequences of one rule's two sides.
pub open spec fn pair_view(wp: WordPair) -> (Seq<char>, Seq<char>) {
    (wp.old@, wp.new@)
}

/// The character sequences of a whole rule list.
pub open spec fn views_of(pairs: Seq<WordPair>) -> Seq<(Seq<char>, Seq<char>)> {
    pairs.map_values(|wp: WordPair| pair_view(wp))
}

/// Sequential application of an ordered rule list: each rule's one-pass
/// replacement runs over the output of the previous rule, so an earlier
/// rule may create text that a later rule then rewrites.
pub open spec fn applied(s: Seq<char>, pairs: Seq<WordPair>) -> Seq<char>
    decreases pairs.len(),
{
    if pairs.len() == 0 {
        s
    } else {
        applied(replaced(s, pairs[0].old@, pairs[0].new@), pairs.skip(1))
    }
}

/// Applying a rule list with one more rule at its end is applying the list,
/// then the added rule: the fold steps through the rules strictly in order.
pub proof fn lemma_applied_push(s: Seq<char>, pairs: Seq<WordPair>, p: WordPair)
    ensures
        applied(s, pairs.push(p)) == replaced(applied(s, pairs), p.old@, p.new@),
    decreases pairs.len(),
{
    if pairs.len() == 0 {
        assert(pairs.push(p)[0] == p);
        assert(pairs.push(p).skip(1) =~= Seq::<WordPair>::empty());
        assert(applied(s, pairs.push(p)) == applied(replaced(s, p.old@, p.new@), Seq::<WordPair>::empty()));
        assert(applied(replaced(s, p.old@, p.new@), Seq::<WordPair>::empty()) == replaced(s, p.old@, p.new@));
        assert(applied(s, pairs) == s);
    } else {
        assert(pairs.push(p)[0] == pairs[0]);
        assert(pairs.push(p).skip(1) =~= pairs.skip(1).push(p));
        let mid = replaced(s, pairs[0].old@, pairs[0].new@);
        assert(applied(s, pairs.push(p)) == applied(mid, pairs.skip(1).push(p)));
        lemma_applied_push(mid, pairs.skip(1), p);
        assert(applied(s, pairs) == applied(mid, pairs.skip(1)));
    }
}

/// Applies every rule to `s`, in rule order, each over the previous
/// result.
pub fn apply_pairs_chars(s: Vec<char>, pairs: &[WordPair]) -> (r: Vec<char>)
    ensures
        r@ == applied(s@, pairs@),
{
    let ghost s0 = s@;
    let mut cur = s;
    let mut k: usize = 0;
    proof {
        assert(pairs@.take(0) =~= Seq::<WordPair>::empty());
    }
    while k < pairs.len()
        invariant
            0 <= k <= pairs@.len(),
            cur@ == applied(s0, pairs@.take(k as int)),
        decreases pairs@.len() - k,
    {
        let oldc = chars_of(pairs[k].old.as_str());
        let newc = chars_of(pairs[k].new.as_str());
        cur = replace_all(&cur, &oldc, &newc);
        proof {
            assert(pairs@.take(k + 1) =~= pairs@.take(k as int).push(pairs@[k as int]));
            lemma_applied_push(s0, pairs@.take(k as int), pairs@[k as int]);
        }
        k = k + 1;
    }
    proof {
        assert(pairs@.take(pairs@.len() as int) =~= pairs@);
    }
    cur
}

/// Whether some rule's `old` string occurs literally in `s`: the pre-check
/// that decides whether a file counts as modified.
pub open spec fn any_match(s: Seq<char>, pairs: Seq<WordPair>) -> bool {
    exists|k: int| 0 <= k < pairs.len() && contains_sub(s, pairs[k].old@)
}

/// The three case candidates of one rule: the rule itself, both sides
/// lowercased, both sides uppercased, in that order.
pub open spec fn variant_views(p: (Seq<char>, Seq<char>)) -> Seq<(Seq<char>, Seq<char>)> {
    seq![p, (lower_of(p.0), lower_of(p.1)), (upper_of(p.0), upper_of(p.1))]
}

/// The case candidates of a whole rule list, in rule order.
pub open spec fn all_candidates(ps: Seq<(Seq<char>, Seq<char>)>) -> Seq<(Seq<char>, Seq<char>)>
    decreases ps.len(),
{
    if ps.len() == 0 {
        Seq::empty()
    } else {
        variant_views(ps[0]) + all_candidates(ps.skip(1))
    }
}

/// Appends a candidate unless an equal (old, new) pair is already present:
/// the first occurrence wins and order is preserved.
pub open spec fn push_unique(
    acc: Seq<(Seq<char>, Seq<char>)>,
    c: (Seq<char>, Seq<char>),
) -> Seq<(Seq<char>, Seq<char>)> {
    if acc.contains(c) {
        acc
    } else {
        acc.push(c)
    }
}

/// Folds `push_unique` over a candidate list.
pub open spec fn dedup_keep_first(
    acc: Seq<(Seq<char>, Seq<char>)>,
    cs: Seq<(Seq<char>, Seq<char>)>,
) -> Seq<(Seq<char>, Seq<char>)>
    decreases cs.len(),
{
    if cs.len() == 0 {
        acc
    } else {
        dedup_keep_first(push_unique(acc, cs[0]), cs.skip(1))
    }
}

/// The expanded rule set: every rule's case candidates in order, exact
/// duplicates dropped, first occurrence kept.
pub open spec fn expanded(ps: Seq<(Seq<char>, Seq<char>)>) -> Seq<(Seq<char>, Seq<char>)> {
    dedup_keep_first(Seq::empty(), all_candidates(ps))
}

/// Deduplicating a concatenation folds the left part first, then the right
/// part over its result.
proof fn lemma_dedup_append(
    acc: Seq<(Seq<char>, Seq<char>)>,
    cs1: Seq<(Seq<char>, Seq<char>)>,
    cs2: Seq<(Seq<char>, Seq<char>)>,
)
    ensures
        dedup_keep_first(acc, cs1 + cs2) == dedup_keep_first(dedup_keep_first(acc, cs1), cs2),
    decreases cs1.len(),
{
    if cs1.len() == 0 {
        assert(cs1 + cs2 =~= cs2);
    } else {
        assert((cs1 + cs2)[0] == cs1[0]);
        assert((cs1 + cs2).skip(1) =~= cs1.skip(1) + cs2);
        lemma_dedup_append(push_unique(acc, cs1[0]), cs1.skip(1), cs2);
    }
}

/// Deduplication only appends: an already-inserted pair keeps its position,
/// so insertion order is preserved and the first-seen form of a duplicate
/// wins.
pub proof fn lemma_dedup_keeps_order(
    acc: Seq<(Seq<char>, Seq<char>)>,
    cs: Seq<(Seq<char>, Seq<char>)>,
)
    ensures
        dedup_keep_first(acc, cs).len() >= acc.len(),
        dedup_keep_first(acc, cs).take(acc.len() as int) == acc,
    decreases cs.len(),
{
    if cs.len() == 0 {
        assert(dedup_keep_first(acc, cs).take(acc.len() as int) =~= acc);
    } else {
        let acc1 = push_unique(acc, cs[0]);
        lemma_dedup_keeps_order(acc1, cs.skip(1));
        assert(acc1.take(acc.len() as int) =~= acc);
        let d = dedup_keep_first(acc, cs);
        assert(d == dedup_keep_first(acc1, cs.skip(1)));
        assert(d.take(acc.len() as int) =~= d.take(acc1.len() as int).take(acc.len() as int));
    }
}

/// A non-empty rule list never expands to an empty set: its first rule's
/// own candidate always enters the empty accumulator.
pub proof fn lemma_expanded_nonempty(ps: Seq<(Seq<char>, Seq<char>)>)
    requires
        ps.len() > 0,
    ensures
        expanded(ps).len() > 0,
{
    let cs = all_candidates(ps);
    assert(cs == variant_views(ps[0]) + all_candidates(ps.skip(1)));
    assert(cs[0] == ps[0]);
    let acc1 = push_unique(Seq::empty(), cs[0]);
    assert(!Seq::<(Seq<char>, Seq<char>)>::empty().contains(cs[0]));
    assert(acc1.len() == 1);
    assert(dedup_keep_first(Seq::empty(), cs) == dedup_keep_first(acc1, cs.skip(1)));
    lemma_dedup_keeps_order(acc1, cs.skip(1));
}

/// The expanded rule set never holds the same (old, new) pair twice.
pub proof fn lemma_expanded_no_duplicates(ps: Seq<(Seq<char>, Seq<char>)>)
    ensures
        forall|i: int, j: int| 0 <= i < j < expanded(ps).len() ==> expanded(ps)[i] != expanded(ps)[j],
{
    lemma_dedup_distinct(Seq::empty(), all_candidates(ps));
}

/// Deduplication keeps a duplicate-free accumulator duplicate-free.
proof fn lemma_dedup_distinct(
    acc: Seq<(Seq<char>, Seq<char>)>,
    cs: Seq<(Seq<char>, Seq<char>)>,
)
    requires
        forall|i: int, j: int| 0 <= i < j < acc.len() ==> acc[i] != acc[j],
    ensures
        forall|i: int, j: int|
            0 <= i < j < dedup_keep_first(acc, cs).len()
                ==> dedup_keep_first(acc, cs)[i] != dedup_keep_first(acc, cs)[j],
    decreases cs.len(),
{
    if cs.len() == 0 {
    } else {
        let acc1 = push_unique(acc, cs[0]);
        assert(dedup_keep_first(acc, cs) == dedup_keep_first(acc1, cs.skip(1)));
        if acc.contains(cs[0]) {
            lemma_dedup_distinct(acc1, cs.skip(1));
        } else {
            assert forall|i: int, j: int| 0 <= i < j < acc1.len() implies acc1[i] != acc1[j] by {
                if j == acc.len() {
                    assert(acc1[j] == cs[0]);
                    if acc1[i] == cs[0] {
                        assert(acc.contains(cs[0]));
                    }
                }
            }
            lemma_dedup_distinct(acc1, cs.skip(1));
        }
    }
}

/// Whether an equal (old, new) pair is already in `v`.
fn holds_pair(v: &Vec<WordPair>, old: &String, new: &String) -> (r: bool)
    ensures
        r == views_of(v@).contains((old@, new@)),
{
    let mut k: usize = 0;
    while k < v.len()
        invariant
            0 <= k <= v@.len(),
            forall|j: int| 0 <= j < k ==> views_of(v@)[j] != (old@, new@),
        decreases v@.len() - k,
    {
        if v[k].old == *old && v[k].new == *new {
            proof {
                assert(views_of(v@)[k as int] == (old@, new@));
            }
            return true;
        }
        k = k + 1;
    }
    false
}

/// Appends `c` to `all` unless an equal (old, new) pair is already there.
fn push_unique_exec(all: &mut Vec<WordPair>, c: WordPair)
    ensures
        views_of(final(all)@) == push_unique(views_of(old(all)@), pair_view(c)),
{
    let keep = !holds_pair(all, &c.old, &c.new);
    if keep {
        let ghost before = all@;
        all.push(c);
        proof {
            assert(views_of(before.push(c)) =~= views_of(before).push(pair_view(c)));
        }
    }
}

/// The text-rewriting service: rule-set expansion and whole-content
/// replacement.
pub struct TextService;

impl TextService {
    /// Expands a rule list with the lowercase and uppercase form of every
    /// rule: for each rule, the identity, lowercased and uppercased
    /// candidates are appended in that order, each dropped when an equal
    /// (old, new) pair is already present, so insertion order is preserved
    /// and the first-seen form wins.
    pub fn expand_variants(pairs: &[WordPair]) -> (r: Vec<WordPair>)
        ensures
            views_of(r@) == expanded(views_of(pairs@)),
    {
        let mut all: Vec<WordPair> = Vec::new();
        let mut i: usize = 0;
        proof {
            assert(views_of(pairs@.take(0)) =~= Seq::<(Seq<char>, Seq<char>)>::empty());
            assert(all_candidates(views_of(pairs@.take(0))) =~= Seq::<(Seq<char>, Seq<char>)>::empty());
            assert(views_of(all@) =~= Seq::<(Seq<char>, Seq<char>)>::empty());
        }
        while i < pairs.len()
            invariant
                0 <= i <= pairs@.len(),
                views_of(all@) == expanded(views_of(pairs@.take(i as int))),
            decreases pairs@.len() - i,
        {
            let ghost acc0 = views_of(all@);
            let ghost pv = pair_view(pairs@[i as int]);
            let c1 = WordPair { old: pairs[i].old.clone(), new: pairs[i].new.clone() };
            push_unique_exec(&mut all, c1);
            let c2 = WordPair {
                old: to_lower(pairs[i].old.as_str()),
                new: to_lower(pairs[i].new.as_str()),
            };
            push_unique_exec(&mut all, c2);
            let c3 = WordPair {
                old: to_upper(pairs[i].old.as_str()),
                new: to_upper(pairs[i].new.as_str()),
            };
            push_unique_exec(&mut all, c3);
            proof {
                let cs = variant_views(pv);
                assert(cs.skip(1) =~= seq![(lower_of(pv.0), lower_of(pv.1)), (upper_of(pv.0), upper_of(pv.1))]);
                assert(cs.skip(1).skip(1) =~= seq![(upper_of(pv.0), upper_of(pv.1))]);
                assert(cs.skip(1).skip(1).skip(1) =~= Seq::<(Seq<char>, Seq<char>)>::empty());
                let a1 = push_unique(acc0, cs[0]);
                let a2 = push_unique(a1, cs.skip(1)[0]);
                let a3 = push_unique(a2, cs.skip(1).skip(1)[0]);
                assert(dedup_keep_first(acc0, cs) == dedup_keep_first(a1, cs.skip(1)));
                assert(dedup_keep_first(a1, cs.skip(1)) == dedup_keep_first(a2, cs.skip(1).skip(1)));
                assert(dedup_keep_first(a2, cs.skip(1).skip(1)) == dedup_keep_first(a3, cs.skip(1).skip(1).skip(1)));
                assert(dedup_keep_first(a3, Seq::<(Seq<char>, Seq<char>)>::empty()) == a3);
                assert(views_of(all@) == dedup_keep_first(acc0, variant_views(pv)));
                let pre = views_of(pairs@.take(i as int));
                let post = views_of(pairs@.take(i + 1));
                assert(pairs@.take(i + 1) =~= pairs@.take(i as int).push(pairs@[i as int]));
                assert(post =~= pre.push(pv));
                assert(post.skip(pre.len() as int) =~= seq![pv]);
                lemma_all_candidates_push(pre, pv);
                lemma_dedup_append(Seq::empty(), all_candidates(pre), variant_views(pv));
            }
            i = i + 1;
        }
        proof {
            assert(pairs@.take(pairs@.len() as int) =~= pairs@);
        }
        all
    }

    /// The content rewrite of one file: every rule applied in order over
    /// the whole content, each rule's pass over the previous pass's output.
    pub fn replace_content(content: &str, pairs: &[WordPair]) -> (r: String)
        ensures
            r@ == applied(content@, pairs@),
    {
        let cv = chars_of(content);
        let rv = apply_pairs_chars(cv, pairs);
        string_from_chars(&rv)
    }

    /// Whether some rule's `old` string occurs literally in `content`.
    pub fn matches_any(content: &str, pairs: &[WordPair]) -> (r: bool)
        ensures
            r == any_match(content@, pairs@),
    {
        let cv = chars_of(content);
        let mut k: usize = 0;
        while k < pairs.len()
            invariant
                0 <= k <= pairs@.len(),
                cv@ == content@,
                forall|j: int| 0 <= j < k ==> !contains_sub(content@, pairs@[j].old@),
            decreases pairs@.len() - k,
        {
            let oldc = chars_of(pairs[k].old.as_str());
            if has_match(&cv, &oldc) {
                return true;
            }
            k = k + 1;
        }
        false
    }
}

/// The candidates of a rule list with one more rule are the candidates of
/// the list followed by the new rule's candidates.
proof fn lemma_all_candidates_push(ps: Seq<(Seq<char>, Seq<char>)>, p: (Seq<char>, Seq<char>))
    ensures
        all_candidates(ps.push(p)) == all_candidates(ps) + variant_views(p),
    decreases ps.len(),
{
    if ps.len() == 0 {
        assert(ps.push(p)[0] == p);
        assert(ps.push(p).skip(1) =~= Seq::<(Seq<char>, Seq<char>)>::empty());
        assert(all_candidates(ps.push(p)) == variant_views(p) + all_candidates(Seq::<(Seq<char>, Seq<char>)>::empty()));
        assert(all_candidates(Seq::<(Seq<char>, Seq<char>)>::empty()) == Seq::<(Seq<char>, Seq<char>)>::empty());
        assert(variant_views(p) + Seq::<(Seq<char>, Seq<char>)>::empty() =~= variant_views(p));
        assert(all_candidates(ps) + variant_views(p) =~= variant_views(p));
    } else {
        assert(ps.push(p)[0] == ps[0]);
        assert(ps.push(p).skip(1) =~= ps.skip(1).push(p));
        lemma_all_candidates_push(ps.skip(1), p);
        assert(variant_views(ps[0]) + (all_candidates(ps.skip(1)) + variant_views(p))
            =~= (variant_views(ps[0]) + all_candidates(ps.skip(1))) + variant_views(p));
    }
}

} // verus!
