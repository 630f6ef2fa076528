//! The decisions of the generational loop: which candidates pass, which
//! survivors are kept, how the score threshold rises and which recipes are
//! persisted. Scores are in thousandths of a point.
use vstd::prelude::*;
use vstd::multiset::Multiset;

verus! {

broadcast use vstd::seq_lib::group_to_multiset_ensures, vstd::multiset::group_multiset_axioms;

/// The threshold before the first generation.
pub const INITIAL_THRESHOLD: i64 = -999_000;

/// A candidate's recipe and its fitness score.
pub struct GeneticRecipe {
    pub recipe: String,
    pub genetic_score: i64,
    pub index: u32,
}

/// Whether scores in `s` never increase.
pub open spec fn sorted_desc(s: Seq<GeneticRecipe>) -> bool {
    forall|i: int, j: int| 0 <= i < j < s.len() ==> s[i].genetic_score >= s[j].genetic_score
}

/// The smaller of two lengths.
pub open spec fn min_len(a: int, b: int) -> int {
    if a < b { a } else { b }
}

/// Whether text `a` comes before text `b` in dictionary order.
pub open spec fn text_lt(a: Seq<char>, b: Seq<char>) -> bool
    decreases a.len(),
{
    if a.len() == 0 {
        b.len() > 0
    } else if b.len() == 0 {
        false
    } else if a[0] != b[0] {
        a[0] < b[0]
    } else {
        text_lt(a.drop_first(), b.drop_first())
    }
}

proof fn lemma_text_lt_trans(a: Seq<char>, b: Seq<char>, c: Seq<char>)
    requires
        text_lt(a, b),
        text_lt(b, c),
    ensures
        text_lt(a, c),
    decreases a.len(),
{
    if a.len() > 0 && a[0] == b[0] && b[0] == c[0] {
        lemma_text_lt_trans(a.drop_first(), b.drop_first(), c.drop_first());
    }
}

proof fn lemma_text_lt_asym(a: Seq<char>, b: Seq<char>)
    ensures
        !(text_lt(a, b) && text_lt(b, a)),
    decreases a.len(),
{
    if a.len() > 0 && b.len() > 0 && a[0] == b[0] {
        lemma_text_lt_asym(a.drop_first(), b.drop_first());
    }
}

proof fn lemma_text_lt_total(a: Seq<char>, b: Seq<char>)
    requires
        a != b,
    ensures
        text_lt(a, b) || text_lt(b, a),
    decreases a.len(),
{
    if a.len() > 0 && b.len() > 0 && a[0] == b[0] {
        if a.drop_first() == b.drop_first() {
            assert(a =~= seq![a[0]] + a.drop_first());
            assert(b =~= seq![b[0]] + b.drop_first());
        }
        lemma_text_lt_total(a.drop_first(), b.drop_first());
    } else if a.len() == 0 && b.len() == 0 {
        assert(a =~= b);
    }
}

/// What ranks a candidate: its score, its recipe text and its index.
pub open spec fn key(x: GeneticRecipe) -> (i64, Seq<char>, u32) {
    (x.genetic_score, x.recipe@, x.index)
}

/// Whether key `a` ranks before key `b`: a higher score, then a recipe
/// text earlier in dictionary order, then a lower index.
pub open spec fn key_before(a: (i64, Seq<char>, u32), b: (i64, Seq<char>, u32)) -> bool {
    a.0 > b.0 || (a.0 == b.0 && (text_lt(a.1, b.1) || (a.1 == b.1 && a.2 < b.2)))
}

proof fn lemma_key_trans(a: (i64, Seq<char>, u32), b: (i64, Seq<char>, u32), c: (i64, Seq<char>, u32))
    requires
        key_before(a, b),
        key_before(b, c),
    ensures
        key_before(a, c),
{
    if a.0 == b.0 && b.0 == c.0 {
        if text_lt(a.1, b.1) && text_lt(b.1, c.1) {
            lemma_text_lt_trans(a.1, b.1, c.1);
        }
    }
}

proof fn lemma_key_asym(a: (i64, Seq<char>, u32), b: (i64, Seq<char>, u32))
    ensures
        !(key_before(a, b) && key_before(b, a)),
{
    lemma_text_lt_asym(a.1, b.1);
    if a.1 == b.1 {
        lemma_text_lt_asym(a.1, a.1);
    }
}

proof fn lemma_key_total(a: (i64, Seq<char>, u32), b: (i64, Seq<char>, u32))
    requires
        a != b,
    ensures
        key_before(a, b) || key_before(b, a),
{
    if a.0 == b.0 && a.1 != b.1 {
        lemma_text_lt_total(a.1, b.1);
    }
}

/// Whether `x` ranks before `y` by their keys.
pub open spec fn ranks_before(x: GeneticRecipe, y: GeneticRecipe) -> bool {
    key_before(key(x), key(y))
}

proof fn lemma_ranks_trans(x: GeneticRecipe, y: GeneticRecipe, z: GeneticRecipe)
    requires
        ranks_before(x, y),
        ranks_before(y, z),
    ensures
        ranks_before(x, z),
{
    lemma_key_trans(key(x), key(y), key(z));
}

/// Whether `s` is in rank order: no candidate ranks before an earlier one.
pub open spec fn ranked(s: Seq<GeneticRecipe>) -> bool {
    forall|i: int, j: int| 0 <= i < j < s.len() ==> !ranks_before(s[j], s[i])
}

/// Whether text `a` comes before `b` in dictionary order.
pub fn text_less(a: &String, b: &String) -> (r: bool)
    ensures
        r == text_lt(a@, b@),
{
    let ac = crate::text::chars_of(a.as_str());
    let bc = crate::text::chars_of(b.as_str());
    let mut k: usize = 0;
    assert(a@.skip(0) =~= a@);
    assert(b@.skip(0) =~= b@);
    while k < ac.len() && k < bc.len() && ac[k] == bc[k]
        invariant
            ac@ == a@,
            bc@ == b@,
            k <= ac@.len(),
            k <= bc@.len(),
            text_lt(a@, b@) == text_lt(a@.skip(k as int), b@.skip(k as int)),
        decreases ac.len() - k,
    {
        assert(a@.skip(k as int).drop_first() =~= a@.skip(k + 1));
        assert(b@.skip(k as int).drop_first() =~= b@.skip(k + 1));
        k = k + 1;
    }
    if k == ac.len() {
        k < bc.len()
    } else if k == bc.len() {
        false
    } else {
        ac[k] < bc[k]
    }
}

/// Whether `x` ranks before `y`.
fn ranks_before_exec(x: &GeneticRecipe, y: &GeneticRecipe) -> (r: bool)
    ensures
        r == ranks_before(*x, *y),
{
    if x.genetic_score != y.genetic_score {
        return x.genetic_score > y.genetic_score;
    }
    if text_less(&x.recipe, &y.recipe) {
        return true;
    }
    let xc = crate::text::chars_of(x.recipe.as_str());
    let yc = crate::text::chars_of(y.recipe.as_str());
    crate::text::chars_eq(xc.as_slice(), yc.as_slice()) && x.index < y.index
}

/// Puts `selected` in rank order (descending score, then recipe text, then
/// index, so the arrival order does not matter) and keeps the first `keep_samples`.
pub fn filter_samples(selected: &mut Vec<GeneticRecipe>, keep_samples: usize)
    ensures
        final(selected)@.len() == min_len(keep_samples as int, old(selected)@.len() as int),
        sorted_desc(final(selected)@),
        ranked(final(selected)@),
        filtered(old(selected)@, final(selected)@, keep_samples as int),
{
    let mut result: Vec<GeneticRecipe> = Vec::new();
    while selected.len() > 0
        invariant
            ranked(result@),
            result@.to_multiset().add(selected@.to_multiset()) == old(selected)@.to_multiset(),
            result@.len() + selected@.len() == old(selected)@.len(),
        decreases selected.len(),
    {
        let x = selected.remove(0);
        let mut p: usize = 0;
        while p < result.len() && !ranks_before_exec(&x, &result[p])
            invariant
                p <= result@.len(),
                forall|i: int| 0 <= i < p ==> !ranks_before(x, result@[i]),
            decreases result.len() - p,
        {
            p = p + 1;
        }
        let ghost before = result@;
        result.insert(p, x);
        proof {
            vstd::seq_lib::to_multiset_insert(before, p as int, x);
            assert forall|i: int, j: int| 0 <= i < j < result@.len() implies
                !ranks_before(result@[j], result@[i]) by {
                if j < p {
                    assert(result@[i] == before[i] && result@[j] == before[j]);
                } else if j == p {
                    assert(result@[i] == before[i]);
                } else if i < p {
                    assert(result@[i] == before[i] && result@[j] == before[j - 1]);
                } else if i == p {
                    assert(result@[j] == before[j - 1]);
                    assert(ranks_before(x, before[p as int]));
                    if ranks_before(before[j - 1], x) {
                        if j - 1 == p {
                            lemma_key_asym(key(x), key(before[p as int]));
                        } else {
                            lemma_ranks_trans(before[j - 1], x, before[p as int]);
                        }
                    }
                } else {
                    assert(result@[i] == before[i - 1] && result@[j] == before[j - 1]);
                }
            }
            assert(result@.to_multiset().add(selected@.to_multiset()) =~= old(selected)@.to_multiset());
        }
    }
    proof {
        vstd::seq_lib::to_multiset_len(selected@);
        assert(selected@.len() == 0);
        assert(selected@.to_multiset() =~= Multiset::empty());
        assert(result@.to_multiset() =~= old(selected)@.to_multiset());
    }
    let ghost full = result@;
    let keep = if keep_samples < result.len() { keep_samples } else { result.len() };
    result.truncate(keep);
    assert(result@ =~= full.take(keep as int));
    assert forall|i: int, j: int| 0 <= i < j < result@.len() implies
        !ranks_before(result@[j], result@[i]) && result@[i].genetic_score >= result@[j].genetic_score by {
        assert(result@[i] == full[i] && result@[j] == full[j]);
    }
    assert forall|i: int, j: int| 0 <= i < j < result@.len() implies
        result@[i].genetic_score >= result@[j].genetic_score by {
        assert(!ranks_before(result@[j], result@[i]));
    }
    assert(sorted_desc(result@));
    assert(full.to_multiset() == old(selected)@.to_multiset() && ranked(full) && result@ == full.take(result@.len() as int));
    *selected = result;
}

/// The keys of `s`, in order.
pub open spec fn keys(s: Seq<GeneticRecipe>) -> Seq<(i64, Seq<char>, u32)> {
    s.map_values(|x: GeneticRecipe| key(x))
}

/// Whether no key of `k` ranks before an earlier one.
pub open spec fn keys_ranked(k: Seq<(i64, Seq<char>, u32)>) -> bool {
    forall|i: int, j: int| 0 <= i < j < k.len() ==> !key_before(k[j], k[i])
}

/// What `filter_samples` makes of `old`: a prefix, `keep` long or all of
/// it, of an arrangement of the same candidates in rank order.
pub open spec fn filtered(old: Seq<GeneticRecipe>, new: Seq<GeneticRecipe>, keep: int) -> bool {
    &&& new.len() == min_len(keep, old.len() as int)
    &&& exists|full: Seq<GeneticRecipe>|
        full.to_multiset() == old.to_multiset() && ranked(full) && new == #[trigger] full.take(new.len() as int)
}

proof fn lemma_keys_multiset(a: Seq<GeneticRecipe>, b: Seq<GeneticRecipe>)
    requires
        a.to_multiset() == b.to_multiset(),
    ensures
        keys(a).to_multiset() == keys(b).to_multiset(),
    decreases a.len(),
{
    if a.len() == 0 {
        vstd::seq_lib::to_multiset_len(a);
        vstd::seq_lib::to_multiset_len(b);
        assert(b =~= Seq::<GeneticRecipe>::empty());
        assert(keys(a) =~= keys(b));
    } else {
        let x = a.last();
        let d = a.drop_last();
        assert(a =~= d.push(x));
        assert(a.to_multiset().count(x) > 0);
        assert(b.contains(x));
        let j = choose|j: int| 0 <= j < b.len() && b[j] == x;
        let e = b.remove(j);
        assert(e.to_multiset() == b.to_multiset().remove(x));
        assert(d.to_multiset() =~= a.to_multiset().remove(x));
        lemma_keys_multiset(d, e);
        assert(keys(a) =~= keys(d).push(key(x)));
        assert(keys(b).remove(j) =~= keys(e));
        assert(keys(b)[j] == key(x));
        vstd::seq_lib::to_multiset_remove(keys(b), j);
        assert(keys(b).contains(key(x)));
        assert(keys(b).to_multiset().count(key(x)) > 0);
        assert(keys(b).to_multiset() =~= keys(b).to_multiset().remove(key(x)).insert(key(x)));
    }
}

proof fn lemma_ranked_unique(a: Seq<(i64, Seq<char>, u32)>, b: Seq<(i64, Seq<char>, u32)>)
    requires
        keys_ranked(a),
        keys_ranked(b),
        a.to_multiset() == b.to_multiset(),
    ensures
        a == b,
    decreases a.len(),
{
    vstd::seq_lib::to_multiset_len(a);
    vstd::seq_lib::to_multiset_len(b);
    if a.len() == 0 {
        assert(a =~= b);
    } else {
        assert(a.to_multiset().count(a[0]) > 0);
        assert(b.contains(a[0]));
        let j = choose|j: int| 0 <= j < b.len() && b[j] == a[0];
        assert(b.to_multiset().count(b[0]) > 0);
        assert(a.contains(b[0]));
        let i = choose|i: int| 0 <= i < a.len() && a[i] == b[0];
        if a[0] != b[0] {
            lemma_key_total(a[0], b[0]);
            assert(i != 0 && j != 0);
            assert(!key_before(a[i], a[0]));
            assert(!key_before(b[j], b[0]));
        }
        vstd::seq_lib::to_multiset_remove(a, 0);
        vstd::seq_lib::to_multiset_remove(b, 0);
        assert(a.remove(0) =~= a.drop_first());
        assert(b.remove(0) =~= b.drop_first());
        lemma_ranked_unique(a.drop_first(), b.drop_first());
        assert(a =~= seq![a[0]] + a.drop_first());
        assert(b =~= seq![b[0]] + b.drop_first());
    }
}

/// Which candidates survive does not depend on the order in which they
/// arrived: two inputs holding the same candidates, each as often, keep
/// survivors with the same scores, recipes and indexes, in the same order.
pub proof fn lemma_filter_order_independent(
    v1: Seq<GeneticRecipe>,
    v2: Seq<GeneticRecipe>,
    n1: Seq<GeneticRecipe>,
    n2: Seq<GeneticRecipe>,
    keep: int,
)
    requires
        v1.to_multiset() == v2.to_multiset(),
        filtered(v1, n1, keep),
        filtered(v2, n2, keep),
    ensures
        keys(n1) == keys(n2),
{
    let f1 = choose|full: Seq<GeneticRecipe>|
        full.to_multiset() == v1.to_multiset() && ranked(full) && n1 == #[trigger] full.take(n1.len() as int);
    let f2 = choose|full: Seq<GeneticRecipe>|
        full.to_multiset() == v2.to_multiset() && ranked(full) && n2 == #[trigger] full.take(n2.len() as int);
    lemma_keys_multiset(f1, f2);
    assert forall|i: int, j: int| 0 <= i < j < keys(f1).len() implies !key_before(keys(f1)[j], keys(f1)[i]) by {
        assert(!ranks_before(f1[j], f1[i]));
    }
    assert forall|i: int, j: int| 0 <= i < j < keys(f2).len() implies !key_before(keys(f2)[j], keys(f2)[i]) by {
        assert(!ranks_before(f2[j], f2[i]));
    }
    lemma_ranked_unique(keys(f1), keys(f2));
    vstd::seq_lib::to_multiset_len(v1);
    vstd::seq_lib::to_multiset_len(v2);
    vstd::seq_lib::to_multiset_len(f1);
    assert(keys(n1) =~= keys(f1).take(n1.len() as int));
    assert(keys(n2) =~= keys(f2).take(n2.len() as int));
}

/// The threshold raised a fifth of the way toward `score`, when `score`
/// exceeds it.
pub open spec fn raised(threshold: int, score: int) -> int {
    if score > threshold { threshold + (score - threshold) / 5 } else { threshold }
}

/// `raised` on machine integers.
pub fn raise_threshold(threshold: i64, score: i64) -> (r: i64)
    ensures
        r == raised(threshold as int, score as int),
        threshold <= r,
        score > threshold ==> r <= score,
{
    if score > threshold {
        let gap: i128 = score as i128 - threshold as i128;
        let r: i128 = threshold as i128 + gap / 5;
        r as i64
    } else {
        threshold
    }
}

/// The recipes of the candidates of `s` whose score exceeds `t`, in order.
pub open spec fn above(s: Seq<GeneticRecipe>, t: int) -> Seq<Seq<char>>
    decreases s.len(),
{
    if s.len() == 0 {
        Seq::empty()
    } else {
        let p = above(s.drop_last(), t);
        if s.last().genetic_score > t { p.push(s.last().recipe@) } else { p }
    }
}

/// The threshold after an improving generation with ranked survivors `s`:
/// one fifth of the way toward the best survivor's score.
pub open spec fn next_threshold(s: Seq<GeneticRecipe>, t: int) -> int {
    if s.len() == 0 { t } else { raised(t, s[0].genetic_score as int) }
}

/// The score threshold never falls: raising it toward any score leaves it
/// at least where it was, so across generations it is non-decreasing.
pub proof fn lemma_threshold_non_decreasing(s: Seq<GeneticRecipe>, t: int)
    ensures
        next_threshold(s, t) >= t,
{
}

/// The candidates of `s` whose score exceeds `t`, in order.
pub open spec fn passing(s: Seq<GeneticRecipe>, t: int) -> Seq<GeneticRecipe>
    decreases s.len(),
{
    if s.len() == 0 {
        Seq::empty()
    } else {
        let p = passing(s.drop_last(), t);
        if s.last().genetic_score > t { p.push(s.last()) } else { p }
    }
}

proof fn lemma_passing_remove(s: Seq<GeneticRecipe>, t: int, i: int)
    requires
        0 <= i < s.len(),
    ensures
        passing(s, t).to_multiset() == if s[i].genetic_score > t {
            passing(s.remove(i), t).to_multiset().insert(s[i])
        } else {
            passing(s.remove(i), t).to_multiset()
        },
    decreases s.len(),
{
    if i == s.len() - 1 {
        assert(s.remove(i) =~= s.drop_last());
    } else {
        let d = s.drop_last();
        lemma_passing_remove(d, t, i);
        assert(s.remove(i).drop_last() =~= d.remove(i));
        assert(s.remove(i).last() == s.last());
        assert(d[i] == s[i]);
        let pr = passing(d.remove(i), t).to_multiset();
        if s.last().genetic_score > t && s[i].genetic_score > t {
            assert(pr.insert(s[i]).insert(s.last()) =~= pr.insert(s.last()).insert(s[i]));
        }
    }
}

/// Which candidates pass does not depend on the order in which their
/// results arrive: two arrivals holding the same candidates, each as
/// often, pass the same candidates, each as often.
pub proof fn lemma_passing_order_independent(a: Seq<GeneticRecipe>, b: Seq<GeneticRecipe>, t: int)
    requires
        a.to_multiset() == b.to_multiset(),
    ensures
        passing(a, t).to_multiset() == passing(b, t).to_multiset(),
    decreases a.len(),
{
    if a.len() == 0 {
        vstd::seq_lib::to_multiset_len(a);
        vstd::seq_lib::to_multiset_len(b);
        assert(b =~= Seq::<GeneticRecipe>::empty());
    } else {
        let x = a.last();
        let d = a.drop_last();
        assert(a =~= d.push(x));
        assert(a.to_multiset().count(x) > 0);
        assert(b.contains(x));
        let j = choose|j: int| 0 <= j < b.len() && b[j] == x;
        let e = b.remove(j);
        assert(e.to_multiset() == b.to_multiset().remove(x));
        assert(d.to_multiset() =~= a.to_multiset().remove(x));
        lemma_passing_order_independent(d, e, t);
        lemma_passing_remove(b, t, j);
        lemma_passing_remove(a, t, a.len() - 1);
        assert(a.remove(a.len() - 1) =~= d);
    }
}

/// Moves the candidates of `results` whose score exceeds `threshold` to
/// the end of `selected`, in order.
pub fn collect_passing(results: Vec<GeneticRecipe>, threshold: i64, selected: &mut Vec<GeneticRecipe>)
    ensures
        final(selected)@ == old(selected)@ + passing(results@, threshold as int),
{
    let mut results = results;
    let ghost all = results@;
    let n = results.len();
    let mut k: usize = 0;
    while results.len() > 0
        invariant
            k <= all.len(),
            n == all.len(),
            k + results@.len() == all.len(),
            results@ == all.subrange(k as int, all.len() as int),
            selected@ == old(selected)@ + passing(all.subrange(0, k as int), threshold as int),
        decreases results.len(),
    {
        let x = results.remove(0);
        assert(all.subrange(0, k + 1).drop_last() =~= all.subrange(0, k as int));
        assert(all.subrange(0, k + 1).last() == x);
        if x.genetic_score > threshold {
            selected.push(x);
        }
        k = k + 1;
        assert(results@ =~= all.subrange(k as int, all.len() as int));
    }
    assert(all.subrange(0, k as int) =~= all);
}

/// The recipes of the survivors whose score exceeds `threshold`, in order.
pub fn recipes_above(survivors: &Vec<GeneticRecipe>, threshold: i64) -> (r: Vec<String>)
    ensures
        r@.map_values(|s: String| s@) == above(survivors@, threshold as int),
{
    let mut out: Vec<String> = Vec::new();
    let mut k: usize = 0;
    while k < survivors.len()
        invariant
            k <= survivors@.len(),
            out@.map_values(|s: String| s@) == above(survivors@.subrange(0, k as int), threshold as int),
        decreases survivors.len() - k,
    {
        let ghost pre = survivors@.subrange(0, k as int);
        assert(survivors@.subrange(0, k + 1).drop_last() =~= pre);
        let x = &survivors[k];
        if x.genetic_score > threshold {
            out.push(x.recipe.clone());
            assert(out@.map_values(|s: String| s@) =~= above(pre, threshold as int).push(x.recipe@));
        }
        k = k + 1;
    }
    assert(survivors@.subrange(0, survivors@.len() as int) =~= survivors@);
    out
}

/// The pool of one improving generation: the candidates of `results` above
/// threshold `t`, back-filled with the previous survivors `selected` when
/// fewer than `keep` passed.
pub open spec fn generation_pool(results: Seq<GeneticRecipe>, selected: Seq<GeneticRecipe>, t: int, keep: int) -> Seq<GeneticRecipe> {
    let passed = passing(results, t);
    if passed.len() < keep { passed + selected } else { passed }
}

/// A generation's survivors do not depend on the order in which the
/// candidates' results arrived: two arrivals holding the same candidates,
/// each as often, give survivors with the same scores, recipes and
/// indexes, in the same order.
pub proof fn lemma_generation_order_independent(
    r1: Seq<GeneticRecipe>,
    r2: Seq<GeneticRecipe>,
    selected: Seq<GeneticRecipe>,
    t: int,
    keep: int,
    n1: Seq<GeneticRecipe>,
    n2: Seq<GeneticRecipe>,
)
    requires
        r1.to_multiset() == r2.to_multiset(),
        filtered(generation_pool(r1, selected, t, keep), n1, keep),
        filtered(generation_pool(r2, selected, t, keep), n2, keep),
    ensures
        keys(n1) == keys(n2),
{
    lemma_passing_order_independent(r1, r2, t);
    let p1 = passing(r1, t);
    let p2 = passing(r2, t);
    vstd::seq_lib::to_multiset_len(p1);
    vstd::seq_lib::to_multiset_len(p2);
    vstd::seq_lib::lemma_multiset_commutative(p1, selected);
    vstd::seq_lib::lemma_multiset_commutative(p2, selected);
    lemma_filter_order_independent(generation_pool(r1, selected, t, keep), generation_pool(r2, selected, t, keep), n1, n2, keep);
}

/// The state the loop carries between generations.
pub struct Generation {
    pub selected: Vec<GeneticRecipe>,
    pub score_threshold: i64,
}

impl Generation {
    /// The state before the first generation.
    pub fn new() -> (r: Generation)
        ensures
            r.selected@.len() == 0,
            r.score_threshold == INITIAL_THRESHOLD,
    {
        Generation { selected: Vec::new(), score_threshold: INITIAL_THRESHOLD }
    }

    /// Takes the scored candidates of one generation. When none is above
    /// the threshold, nothing changes. Otherwise those that are form the
    /// pool, back-filled with the previous survivors when fewer than
    /// `keep_samples` passed; the pool is ranked and cut to `keep_samples`, the
    /// recipes of those above the old threshold come back to be persisted,
    /// and the threshold rises a fifth of the way toward the best survivor.
    pub fn process_results(&mut self, results: Vec<GeneticRecipe>, keep_samples: usize) -> (r: Vec<String>)
        ensures
            passing(results@, old(self).score_threshold as int).len() == 0 ==>
                final(self).selected@ == old(self).selected@
                && final(self).score_threshold == old(self).score_threshold && r@.len() == 0,
            passing(results@, old(self).score_threshold as int).len() > 0 ==> {
                let pool = generation_pool(results@, old(self).selected@, old(self).score_threshold as int, keep_samples as int);
                &&& final(self).selected@.len() == min_len(keep_samples as int, pool.len() as int)
                &&& sorted_desc(final(self).selected@)
                &&& ranked(final(self).selected@)
                &&& filtered(pool, final(self).selected@, keep_samples as int)
                &&& final(self).score_threshold == next_threshold(final(self).selected@, old(self).score_threshold as int)
                &&& r@.map_values(|s: String| s@) == above(final(self).selected@, old(self).score_threshold as int)
            },
            final(self).score_threshold >= old(self).score_threshold,
    {
        let mut pool: Vec<GeneticRecipe> = Vec::new();
        collect_passing(results, self.score_threshold, &mut pool);
        assert(pool@ =~= passing(results@, old(self).score_threshold as int));
        if pool.len() == 0 {
            return Vec::new();
        }
        if pool.len() < keep_samples {
            pool.append(&mut self.selected);
        }
        filter_samples(&mut pool, keep_samples);
        let out = recipes_above(&pool, self.score_threshold);
        let t = if pool.len() == 0 { self.score_threshold } else { raise_threshold(self.score_threshold, pool[0].genetic_score) };
        self.selected = pool;
        self.score_threshold = t;
        out
    }
}

} // verus!
