//! Paths as lists of components: joining them with `/`, and ordering them
//! as file system paths are ordered (component by component, each component
//! by its characters), to list accessible notes sorted and without repeats.

use vstd::prelude::*;

verus! {

/// The result of comparing two values.
#[derive(Debug, PartialEq, Eq, Clone, Copy)]
pub enum Order {
    Less,
    Equal,
    Greater,
}

/// Characters are ordered by their scalar values, the order of their UTF-8
/// encodings.
pub open spec fn char_lt(a: char, b: char) -> bool {
    (a as int) < (b as int)
}

/// `a` comes before `b` in text order, first telling them apart at `k`:
/// they agree before `k`, and at `k` either `a` has ended while `b` goes
/// on, or `a` has the smaller character.
pub open spec fn text_lt_at(a: Seq<char>, b: Seq<char>, k: int) -> bool {
    &&& 0 <= k <= a.len()
    &&& k <= b.len()
    &&& forall|j: int| 0 <= j < k ==> a[j] == b[j]
    &&& (k == a.len() && k < b.len()) || (k < a.len() && k < b.len() && char_lt(a[k], b[k]))
}

/// Text order: lexicographic by character.
pub open spec fn text_lt(a: Seq<char>, b: Seq<char>) -> bool {
    exists|k: int| text_lt_at(a, b, k)
}

/// `a` comes before `b` in path order, first telling them apart at the
/// component `k`: the components before `k` are equal, and at `k` either
/// `a` has ended while `b` goes on, or `a`'s component is smaller.
pub open spec fn path_lt_at(a: Seq<Seq<char>>, b: Seq<Seq<char>>, k: int) -> bool {
    &&& 0 <= k <= a.len()
    &&& k <= b.len()
    &&& forall|j: int| 0 <= j < k ==> a[j] == b[j]
    &&& (k == a.len() && k < b.len()) || (k < a.len() && k < b.len() && text_lt(a[k], b[k]))
}

/// Path order: lexicographic by component, components in text order.
pub open spec fn path_lt(a: Seq<Seq<char>>, b: Seq<Seq<char>>) -> bool {
    exists|k: int| path_lt_at(a, b, k)
}

// ---------------------------------------------------------------------------
// Text order is a strict total order
// ---------------------------------------------------------------------------

/// No text comes before itself.
pub proof fn lemma_text_lt_irreflexive(a: Seq<char>)
    ensures
        !text_lt(a, a),
{
}

/// Of two texts, at most one comes before the other.
pub proof fn lemma_text_lt_asymmetric(a: Seq<char>, b: Seq<char>)
    ensures
        !(text_lt(a, b) && text_lt(b, a)),
{
    if text_lt(a, b) && text_lt(b, a) {
        let k1 = choose|k: int| text_lt_at(a, b, k);
        let k2 = choose|k: int| text_lt_at(b, a, k);
        if k1 < k2 {
            assert(a[k1] == b[k1]);
        } else if k2 < k1 {
            assert(a[k2] == b[k2]);
        }
    }
}

/// Text order is transitive.
pub proof fn lemma_text_lt_transitive(a: Seq<char>, b: Seq<char>, c: Seq<char>)
    requires
        text_lt(a, b),
        text_lt(b, c),
    ensures
        text_lt(a, c),
{
    let k1 = choose|k: int| text_lt_at(a, b, k);
    let k2 = choose|k: int| text_lt_at(b, c, k);
    if k1 < k2 {
        assert(text_lt_at(a, c, k1));
    } else if k2 < k1 {
        assert(text_lt_at(a, c, k2));
    } else {
        assert(text_lt_at(a, c, k1));
    }
}

/// Two texts that agree before `i` are equal or one comes before the other.
proof fn lemma_text_total_from(a: Seq<char>, b: Seq<char>, i: int)
    requires
        0 <= i <= a.len(),
        i <= b.len(),
        forall|j: int| 0 <= j < i ==> a[j] == b[j],
    ensures
        a == b || text_lt(a, b) || text_lt(b, a),
    decreases a.len() - i,
{
    if i == a.len() && i == b.len() {
        assert(a =~= b);
    } else if i == a.len() {
        assert(text_lt_at(a, b, i));
    } else if i == b.len() {
        assert(text_lt_at(b, a, i));
    } else if a[i] == b[i] {
        lemma_text_total_from(a, b, i + 1);
    } else if char_lt(a[i], b[i]) {
        assert(text_lt_at(a, b, i));
    } else {
        assert((a[i] as int) != (b[i] as int));
        assert(text_lt_at(b, a, i));
    }
}

/// Two texts are equal or one comes before the other.
pub proof fn lemma_text_lt_total(a: Seq<char>, b: Seq<char>)
    ensures
        a == b || text_lt(a, b) || text_lt(b, a),
{
    lemma_text_total_from(a, b, 0);
}

// ---------------------------------------------------------------------------
// Path order is a strict total order
// ---------------------------------------------------------------------------

/// No path comes before itself.
pub proof fn lemma_path_lt_irreflexive(a: Seq<Seq<char>>)
    ensures
        !path_lt(a, a),
{
    if path_lt(a, a) {
        let k = choose|k: int| path_lt_at(a, a, k);
        if k < a.len() {
            lemma_text_lt_irreflexive(a[k]);
        }
    }
}

/// Of two paths, at most one comes before the other.
pub proof fn lemma_path_lt_asymmetric(a: Seq<Seq<char>>, b: Seq<Seq<char>>)
    ensures
        !(path_lt(a, b) && path_lt(b, a)),
{
    if path_lt(a, b) && path_lt(b, a) {
        let k1 = choose|k: int| path_lt_at(a, b, k);
        let k2 = choose|k: int| path_lt_at(b, a, k);
        if k1 < k2 {
            assert(a[k1] == b[k1]);
            lemma_text_lt_irreflexive(a[k1]);
        } else if k2 < k1 {
            assert(a[k2] == b[k2]);
            lemma_text_lt_irreflexive(a[k2]);
        } else if k1 < a.len() {
            lemma_text_lt_asymmetric(a[k1], b[k1]);
        }
    }
}

/// Path order is transitive.
pub proof fn lemma_path_lt_transitive(a: Seq<Seq<char>>, b: Seq<Seq<char>>, c: Seq<Seq<char>>)
    requires
        path_lt(a, b),
        path_lt(b, c),
    ensures
        path_lt(a, c),
{
    let k1 = choose|k: int| path_lt_at(a, b, k);
    let k2 = choose|k: int| path_lt_at(b, c, k);
    if k1 < k2 {
        assert(path_lt_at(a, c, k1));
    } else if k2 < k1 {
        assert(path_lt_at(a, c, k2));
    } else {
        if k1 < a.len() {
            lemma_text_lt_transitive(a[k1], b[k1], c[k1]);
        }
        assert(path_lt_at(a, c, k1));
    }
}

/// Two paths that agree before `i` are equal or one comes before the other.
proof fn lemma_path_total_from(a: Seq<Seq<char>>, b: Seq<Seq<char>>, i: int)
    requires
        0 <= i <= a.len(),
        i <= b.len(),
        forall|j: int| 0 <= j < i ==> a[j] == b[j],
    ensures
        a == b || path_lt(a, b) || path_lt(b, a),
    decreases a.len() - i,
{
    if i == a.len() && i == b.len() {
        assert(a =~= b);
    } else if i == a.len() {
        assert(path_lt_at(a, b, i));
    } else if i == b.len() {
        assert(path_lt_at(b, a, i));
    } else if a[i] == b[i] {
        lemma_path_total_from(a, b, i + 1);
    } else {
        lemma_text_lt_total(a[i], b[i]);
        if text_lt(a[i], b[i]) {
            assert(path_lt_at(a, b, i));
        } else {
            assert(path_lt_at(b, a, i));
        }
    }
}

/// Two paths are equal or one comes before the other.
pub proof fn lemma_path_lt_total(a: Seq<Seq<char>>, b: Seq<Seq<char>>)
    ensures
        a == b || path_lt(a, b) || path_lt(b, a),
{
    lemma_path_total_from(a, b, 0);
}


// ---------------------------------------------------------------------------
// Comparing
// ---------------------------------------------------------------------------

/// The view of a path given as its components.
pub open spec fn path_view(p: Vec<String>) -> Seq<Seq<char>> {
    p@.map_values(|c: String| c@)
}

/// Compares two texts in text order.
pub fn compare_text(a: &str, b: &str) -> (r: Order)
    ensures
        r is Less ==> text_lt(a@, b@),
        r is Greater ==> text_lt(b@, a@),
        r is Equal ==> a@ == b@,
{
    let la = a.unicode_len();
    let lb = b.unicode_len();
    let mut i: usize = 0;
    while i < la && i < lb
        invariant
            la == a@.len(),
            lb == b@.len(),
            i <= la,
            i <= lb,
            forall|j: int| 0 <= j < i ==> a@[j] == b@[j],
        decreases la - i,
    {
        let ca = a.get_char(i);
        let cb = b.get_char(i);
        if (ca as u32) < (cb as u32) {
            assert(text_lt_at(a@, b@, i as int));
            return Order::Less;
        } else if (cb as u32) < (ca as u32) {
            assert(text_lt_at(b@, a@, i as int));
            return Order::Greater;
        }
        i = i + 1;
    }
    if la == lb {
        assert(a@ =~= b@);
        Order::Equal
    } else if la < lb {
        assert(text_lt_at(a@, b@, i as int));
        Order::Less
    } else {
        assert(text_lt_at(b@, a@, i as int));
        Order::Greater
    }
}

/// Compares two paths, given as their components, in path order.
pub fn compare_path(a: &Vec<String>, b: &Vec<String>) -> (r: Order)
    ensures
        r is Less ==> path_lt(path_view(*a), path_view(*b)),
        r is Greater ==> path_lt(path_view(*b), path_view(*a)),
        r is Equal ==> path_view(*a) == path_view(*b),
{
    let ghost av = path_view(*a);
    let ghost bv = path_view(*b);
    let la = a.len();
    let lb = b.len();
    let mut i: usize = 0;
    while i < la && i < lb
        invariant
            la == av.len(),
            lb == bv.len(),
            av == path_view(*a),
            bv == path_view(*b),
            i <= la,
            i <= lb,
            forall|j: int| 0 <= j < i ==> av[j] == bv[j],
        decreases la - i,
    {
        match compare_text(a[i].as_str(), b[i].as_str()) {
            Order::Less => {
                assert(path_lt_at(av, bv, i as int));
                return Order::Less;
            },
            Order::Greater => {
                assert(path_lt_at(bv, av, i as int));
                return Order::Greater;
            },
            Order::Equal => {},
        }
        i = i + 1;
    }
    if la == lb {
        assert(av =~= bv);
        Order::Equal
    } else if la < lb {
        assert(path_lt_at(av, bv, i as int));
        Order::Less
    } else {
        assert(path_lt_at(bv, av, i as int));
        Order::Greater
    }
}

// ---------------------------------------------------------------------------
// Joining
// ---------------------------------------------------------------------------

/// The components of a path joined with `/` between them.
pub open spec fn join_with_slash(parts: Seq<Seq<char>>) -> Seq<char>
    decreases parts.len(),
{
    if parts.len() == 0 {
        Seq::empty()
    } else if parts.len() == 1 {
        parts[0]
    } else {
        join_with_slash(parts.drop_last()) + seq!['/'] + parts.last()
    }
}

/// The number of characters of all the components of a path together.
pub open spec fn total_len(parts: Seq<Seq<char>>) -> int
    decreases parts.len(),
{
    if parts.len() == 0 {
        0
    } else {
        total_len(parts.drop_last()) + parts.last().len()
    }
}

/// Taking one more component adds its length; a prefix of the components
/// is no longer than all of them.
proof fn lemma_total_len_take(parts: Seq<Seq<char>>, k: int)
    requires
        0 <= k <= parts.len(),
    ensures
        k < parts.len() ==> total_len(parts.take(k + 1)) == total_len(parts.take(k)) + parts[k].len(),
        0 <= total_len(parts.take(k)) <= total_len(parts),
    decreases parts.len(),
{
    if k < parts.len() {
        assert(parts.take(k + 1).drop_last() =~= parts.take(k));
    }
    if k == parts.len() {
        assert(parts.take(k) =~= parts);
        lemma_total_len_nonneg(parts);
    } else {
        lemma_total_len_take(parts.drop_last(), k);
        assert(parts.drop_last().take(k) =~= parts.take(k));
    }
}

/// A length is never negative.
proof fn lemma_total_len_nonneg(parts: Seq<Seq<char>>)
    ensures
        total_len(parts) >= 0,
    decreases parts.len(),
{
    if parts.len() > 0 {
        lemma_total_len_nonneg(parts.drop_last());
    }
}

/// Where the component `i` begins in the joined text when one separator
/// stands between each two components: after the components before it and
/// one separator for each of them.
pub open spec fn segment_start(parts: Seq<Seq<char>>, i: int) -> int {
    total_len(parts.take(i)) + i
}

/// Joining puts exactly one `/` between each two adjacent components and
/// nothing else: the joined text is as long as the components together plus
/// one for each gap, each component stands at its place, and a `/` follows
/// each component but the last.
pub proof fn law_join_puts_one_slash_between(parts: Seq<Seq<char>>)
    requires
        parts.len() >= 1,
    ensures
        join_with_slash(parts).len() == total_len(parts) + parts.len() - 1,
        forall|i: int|
            0 <= i < parts.len() ==> join_with_slash(parts).subrange(
                segment_start(parts, i),
                segment_start(parts, i) + parts[i].len(),
            ) == #[trigger] parts[i],
        forall|i: int|
            0 <= i < parts.len() - 1 ==> join_with_slash(parts)[segment_start(parts, i) + #[trigger] parts[i].len()]
                == '/',
    decreases parts.len(),
{
    let n = parts.len();
    let joined = join_with_slash(parts);
    if n == 1 {
        assert(parts.take(0) =~= Seq::<Seq<char>>::empty());
        assert(parts.drop_last() =~= Seq::<Seq<char>>::empty());
        assert(total_len(parts.drop_last()) == 0);
        assert(parts.last() == parts[0]);
        assert(total_len(parts.take(0)) == 0);
        assert(total_len(parts) == parts[0].len());
        assert(joined.subrange(0, parts[0].len() as int) =~= parts[0]);
    } else {
        let prev = parts.drop_last();
        law_join_puts_one_slash_between(prev);
        lemma_join_step(parts, prev);
    }
}

/// One step of the law above: the law for all components but the last
/// gives it for all of them.
#[verifier::spinoff_prover]
proof fn lemma_join_step(parts: Seq<Seq<char>>, prev: Seq<Seq<char>>)
    requires
        parts.len() >= 2,
        prev == parts.drop_last(),
        join_with_slash(prev).len() == total_len(prev) + prev.len() - 1,
        forall|i: int|
            0 <= i < prev.len() ==> join_with_slash(prev).subrange(
                segment_start(prev, i),
                segment_start(prev, i) + prev[i].len(),
            ) == #[trigger] prev[i],
        forall|i: int|
            0 <= i < prev.len() - 1 ==> join_with_slash(prev)[segment_start(prev, i) + #[trigger] prev[i].len()]
                == '/',
    ensures
        join_with_slash(parts).len() == total_len(parts) + parts.len() - 1,
        forall|i: int|
            0 <= i < parts.len() ==> join_with_slash(parts).subrange(
                segment_start(parts, i),
                segment_start(parts, i) + parts[i].len(),
            ) == #[trigger] parts[i],
        forall|i: int|
            0 <= i < parts.len() - 1 ==> join_with_slash(parts)[segment_start(parts, i) + #[trigger] parts[i].len()]
                == '/',
{
    let n = parts.len();
    let joined = join_with_slash(parts);
    let jp = join_with_slash(prev);
    assert(joined == jp + seq!['/'] + parts.last());
    assert(total_len(parts) == total_len(prev) + parts.last().len());
    assert(joined.len() == jp.len() + 1 + parts.last().len());
    assert(parts.take(n - 1) =~= prev);
    assert(segment_start(parts, n - 1) == jp.len() + 1);
    assert forall|i: int| 0 <= i < n implies joined.subrange(
        segment_start(parts, i),
        segment_start(parts, i) + parts[i].len(),
    ) == #[trigger] parts[i] by {
        if i < n - 1 {
            assert(parts.take(i) =~= prev.take(i));
            assert(prev[i] == parts[i]);
            lemma_total_len_take(prev, i);
            lemma_total_len_take(prev, i + 1);
            assert(jp.subrange(segment_start(prev, i), segment_start(prev, i) + prev[i].len()) == prev[i]);
            assert(joined.subrange(segment_start(parts, i), segment_start(parts, i) + parts[i].len()) =~= jp.subrange(
                segment_start(prev, i),
                segment_start(prev, i) + prev[i].len(),
            ));
        } else {
            assert(joined.subrange(segment_start(parts, i), segment_start(parts, i) + parts[i].len()) =~= parts.last());
        }
    }
    assert forall|i: int| 0 <= i < n - 1 implies joined[segment_start(parts, i) + #[trigger] parts[i].len()] == '/' by {
        assert(parts.take(i) =~= prev.take(i));
        assert(prev[i] == parts[i]);
        lemma_total_len_take(prev, i);
        lemma_total_len_take(prev, i + 1);
        if i < n - 2 {
            assert(jp[segment_start(prev, i) + prev[i].len()] == '/');
        } else {
            assert(prev.take(i) =~= prev.drop_last());
            assert(segment_start(parts, i) + parts[i].len() == jp.len());
        }
    }
}

/// Joins the components of a path with `/` between them.
pub fn join_segments(parts: &Vec<String>) -> (r: String)
    ensures
        r@ == join_with_slash(path_view(*parts)),
        parts@.len() >= 1 ==> r@.len() == total_len(path_view(*parts)) + parts@.len() - 1,
{
    let ghost pv = path_view(*parts);
    let mut r = String::new();
    let n = parts.len();
    for i in 0..n
        invariant
            n == pv.len(),
            pv == path_view(*parts),
            r@ == join_with_slash(pv.take(i as int)),
    {
        proof {
            assert(pv.take(i + 1).drop_last() =~= pv.take(i as int));
        }
        if i > 0 {
            let sep = "/";
            proof {
                reveal_strlit("/");
            }
            r.append(sep);
        }
        r.append(parts[i].as_str());
        proof {
            if i == 0 {
                assert(r@ =~= pv[0]);
            }
        }
    }
    proof {
        assert(pv.take(n as int) =~= pv);
        if n >= 1 {
            law_join_puts_one_slash_between(pv);
        }
    }
    r
}

// ---------------------------------------------------------------------------
// Sorting without repeats
// ---------------------------------------------------------------------------

/// `s` is strictly ascending in path order.
pub open spec fn strictly_sorted(s: Seq<Seq<Seq<char>>>) -> bool {
    forall|i: int, j: int| 0 <= i < j < s.len() ==> path_lt(#[trigger] s[i], #[trigger] s[j])
}

/// `a` and `b` hold the same paths.
pub open spec fn same_paths(a: Seq<Seq<Seq<char>>>, b: Seq<Seq<Seq<char>>>) -> bool {
    &&& forall|i: int| 0 <= i < a.len() ==> #[trigger] b.contains(a[i])
    &&& forall|i: int| 0 <= i < b.len() ==> #[trigger] a.contains(b[i])
}

/// Listing is independent of how the paths were found: two strictly sorted
/// lists that hold the same paths are the same list. So the same access
/// rules, in any order and with repeats, list the same notes.
pub proof fn law_sorted_same_paths_equal(a: Seq<Seq<Seq<char>>>, b: Seq<Seq<Seq<char>>>)
    requires
        strictly_sorted(a),
        strictly_sorted(b),
        same_paths(a, b),
    ensures
        a == b,
    decreases a.len(),
{
    if a.len() == 0 {
        if b.len() > 0 {
            assert(a.contains(b[0]));
        }
        assert(a =~= b);
    } else if b.len() == 0 {
        assert(b.contains(a[0]));
    } else {
        if a[0] != b[0] {
            assert(b.contains(a[0]));
            let j = choose|j: int| 0 <= j < b.len() && b[j] == a[0];
            assert(a.contains(b[0]));
            let k = choose|k: int| 0 <= k < a.len() && a[k] == b[0];
            assert(path_lt(b[0], b[j]));
            assert(path_lt(a[0], a[k]));
            lemma_path_lt_asymmetric(a[0], b[0]);
        }
        let ta = a.drop_first();
        let tb = b.drop_first();
        assert forall|i: int, j: int| 0 <= i < j < ta.len() implies path_lt(#[trigger] ta[i], #[trigger] ta[j]) by {
            assert(ta[i] == a[i + 1] && ta[j] == a[j + 1]);
        }
        assert forall|i: int, j: int| 0 <= i < j < tb.len() implies path_lt(#[trigger] tb[i], #[trigger] tb[j]) by {
            assert(tb[i] == b[i + 1] && tb[j] == b[j + 1]);
        }
        assert forall|i: int| 0 <= i < ta.len() implies #[trigger] tb.contains(ta[i]) by {
            let x = a[i + 1];
            assert(ta[i] == x);
            assert(b.contains(x));
            let m = choose|m: int| 0 <= m < b.len() && b[m] == x;
            assert(path_lt(a[0], a[i + 1]));
            lemma_path_lt_irreflexive(x);
            assert(m != 0);
            assert(tb[m - 1] == x);
        }
        assert forall|i: int| 0 <= i < tb.len() implies #[trigger] ta.contains(tb[i]) by {
            let x = b[i + 1];
            assert(tb[i] == x);
            assert(a.contains(x));
            let m = choose|m: int| 0 <= m < a.len() && a[m] == x;
            assert(path_lt(b[0], b[i + 1]));
            lemma_path_lt_irreflexive(x);
            assert(m != 0);
            assert(ta[m - 1] == x);
        }
        law_sorted_same_paths_equal(ta, tb);
        assert(a =~= b) by {
            assert forall|i: int| 0 <= i < a.len() implies a[i] == b[i] by {
                if i > 0 {
                    assert(a[i] == ta[i - 1]);
                    assert(b[i] == tb[i - 1]);
                }
            }
        }
    }
}

/// The views of a list of paths.
pub open spec fn paths_view(v: Seq<Vec<String>>) -> Seq<Seq<Seq<char>>> {
    v.map_values(|p: Vec<String>| path_view(p))
}

/// The paths of `paths` in path order, each once.
pub fn sorted_unique(paths: Vec<Vec<String>>) -> (r: Vec<Vec<String>>)
    ensures
        strictly_sorted(paths_view(r@)),
        same_paths(paths_view(r@), paths_view(paths@)),
{
    let ghost input = paths_view(paths@);
    let mut rest = paths;
    let mut result: Vec<Vec<String>> = Vec::new();
    while rest.len() > 0
        invariant
            input.len() >= rest@.len(),
            paths_view(rest@) == input.take(rest@.len() as int),
            strictly_sorted(paths_view(result@)),
            forall|i: int| 0 <= i < result@.len() ==> #[trigger] input.contains(paths_view(result@)[i]),
            forall|i: int| rest@.len() <= i < input.len() ==> #[trigger] paths_view(result@).contains(input[i]),
        decreases rest@.len(),
    {
        let ghost before = rest@;
        let p = rest.pop().unwrap();
        let ghost pv = path_view(p);
        let ghost rv = paths_view(result@);
        proof {
            assert(before =~= rest@.push(p));
            assert(paths_view(before)[rest@.len() as int] == pv);
            assert(input.take(before.len() as int)[rest@.len() as int] == input[rest@.len() as int]);
            assert(paths_view(rest@) =~= input.take(rest@.len() as int));
            assert(input[rest@.len() as int] == pv);
        }
        let mut k: usize = 0;
        while k < result.len() && matches!(compare_path(&result[k], &p), Order::Less)
            invariant
                k <= result@.len(),
                rv == paths_view(result@),
                pv == path_view(p),
                forall|i: int| 0 <= i < k ==> path_lt(#[trigger] rv[i], pv),
            decreases result@.len() - k,
        {
            k = k + 1;
        }
        let ord = if k < result.len() { compare_path(&result[k], &p) } else { Order::Less };
        if k < result.len() && matches!(ord, Order::Equal) {
            proof {
                assert(rv[k as int] == pv);
                assert forall|i: int| rest@.len() <= i < input.len() implies #[trigger] paths_view(result@).contains(input[i]) by {
                    if i == rest@.len() {
                        assert(paths_view(result@)[k as int] == input[i]);
                    }
                }
            }
        } else {
            proof {
                if k < result@.len() {
                    assert(ord is Greater);
                    assert(path_lt(pv, rv[k as int]));
                }
            }
            result.insert(k, p);
            proof {
                let nv = paths_view(result@);
                assert(nv =~= rv.insert(k as int, pv));
                assert forall|i: int, j: int| 0 <= i < j < nv.len() implies path_lt(#[trigger] nv[i], #[trigger] nv[j]) by {
                    if j < k {
                    } else if j == k {
                    } else if i < k {
                        assert(nv[j] == rv[j - 1]);
                        if j - 1 > k {
                            lemma_path_lt_transitive(pv, rv[k as int], rv[j - 1]);
                        }
                        lemma_path_lt_transitive(rv[i], pv, rv[j - 1]);
                    } else if i == k {
                        assert(nv[j] == rv[j - 1]);
                        if j - 1 > k {
                            lemma_path_lt_transitive(pv, rv[k as int], rv[j - 1]);
                        }
                    } else {
                        assert(nv[i] == rv[i - 1]);
                        assert(nv[j] == rv[j - 1]);
                    }
                }
                assert forall|i: int| 0 <= i < nv.len() implies #[trigger] input.contains(nv[i]) by {
                    if i < k {
                        assert(nv[i] == rv[i]);
                    } else if i == k {
                        assert(input[rest@.len() as int] == nv[i]);
                    } else {
                        assert(nv[i] == rv[i - 1]);
                    }
                }
                assert forall|i: int| rest@.len() <= i < input.len() implies #[trigger] nv.contains(input[i]) by {
                    if i == rest@.len() {
                        assert(nv[k as int] == input[i]);
                    } else {
                        assert(rv.contains(input[i]));
                        let m = choose|m: int| 0 <= m < rv.len() && rv[m] == input[i];
                        if m < k {
                            assert(nv[m] == rv[m]);
                        } else {
                            assert(nv[m + 1] == rv[m]);
                        }
                    }
                }
            }
        }
    }
    proof {
        assert forall|i: int| 0 <= i < input.len() implies #[trigger] paths_view(result@).contains(input[i]) by {
        }
    }
    result
}

} // verus!
