//! Names and labels as sequences of characters: their order, and the decimal
//! numerals that make a taken name unique.

use vstd::prelude::*;
use vstd::string::StringExecFns;
use vstd::utf8::{encode_utf8, encode_utf8_decode_utf8};

verus! {

/// The model of a list of named handles: each name as its characters.
pub open spec fn named_view<T>(entries: Seq<(String, T)>) -> Seq<(Seq<char>, T)> {
    Seq::new(entries.len(), |i: int| (entries[i].0@, entries[i].1))
}

/// The model of an optional string.
pub open spec fn hint_view(hint: Option<String>) -> Option<Seq<char>> {
    match hint {
        Some(h) => Some(h@),
        None => None,
    }
}

/// The model of an optional borrowed string.
pub open spec fn name_view(name: Option<&String>) -> Option<Seq<char>> {
    match name {
        Some(n) => Some(n@),
        None => None,
    }
}

/// The character of a decimal digit.
pub open spec fn digit_char(d: nat) -> char {
    if d == 0 {
        '0'
    } else if d == 1 {
        '1'
    } else if d == 2 {
        '2'
    } else if d == 3 {
        '3'
    } else if d == 4 {
        '4'
    } else if d == 5 {
        '5'
    } else if d == 6 {
        '6'
    } else if d == 7 {
        '7'
    } else if d == 8 {
        '8'
    } else {
        '9'
    }
}

/// The decimal numeral of a number, without leading zeros.
pub open spec fn decimal(n: nat) -> Seq<char>
    decreases n,
{
    if n < 10 {
        seq![digit_char(n)]
    } else {
        decimal(n / 10).push(digit_char(n % 10))
    }
}

/// A numeral has at least one digit.
pub proof fn lemma_decimal_nonempty(n: nat)
    ensures
        decimal(n).len() >= 1,
    decreases n,
{
    if n >= 10 {
        lemma_decimal_nonempty(n / 10);
    }
}

/// Different numbers have different numerals.
pub proof fn lemma_decimal_injective(a: nat, b: nat)
    requires
        decimal(a) == decimal(b),
    ensures
        a == b,
    decreases a,
{
    if a < 10 && b < 10 {
        assert(decimal(b)[0] == digit_char(b));
    } else if a < 10 {
        lemma_decimal_nonempty(b / 10);
        assert(decimal(a).len() == 1);
    } else if b < 10 {
        lemma_decimal_nonempty(a / 10);
        assert(decimal(b).len() == 1);
        assert(decimal(a).len() == decimal(a / 10).len() + 1);
    } else {
        let x = decimal(a / 10);
        let y = decimal(b / 10);
        let p = digit_char(a % 10);
        let q = digit_char(b % 10);
        assert(x.push(p).drop_last() == x);
        assert(y.push(q).drop_last() == y);
        assert(x.push(p).last() == p);
        assert(decimal(a) == x.push(p));
        assert(decimal(b) == y.push(q));
        assert(x == y);
        assert(p == q);
        lemma_decimal_injective(a / 10, b / 10);
        assert(a % 10 == b % 10);
    }
}

/// What follows a common prefix is the same when the whole is.
pub proof fn lemma_suffix_cancel(prefix: Seq<char>, x: Seq<char>, y: Seq<char>)
    requires
        prefix + x == prefix + y,
    ensures
        x == y,
{
    assert((prefix + x).subrange(prefix.len() as int, (prefix + x).len() as int) == x);
    assert((prefix + y).subrange(prefix.len() as int, (prefix + y).len() as int) == y);
}

/// The one-character string of a decimal digit.
fn digit_str(d: u64) -> (s: &'static str)
    requires
        d < 10,
    ensures
        s@ == seq![digit_char(d as nat)],
{
    proof {
        reveal_strlit("0");
        reveal_strlit("1");
        reveal_strlit("2");
        reveal_strlit("3");
        reveal_strlit("4");
        reveal_strlit("5");
        reveal_strlit("6");
        reveal_strlit("7");
        reveal_strlit("8");
        reveal_strlit("9");
    }
    let s = if d == 0 {
        "0"
    } else if d == 1 {
        "1"
    } else if d == 2 {
        "2"
    } else if d == 3 {
        "3"
    } else if d == 4 {
        "4"
    } else if d == 5 {
        "5"
    } else if d == 6 {
        "6"
    } else if d == 7 {
        "7"
    } else if d == 8 {
        "8"
    } else {
        "9"
    };
    s
}

/// Append the decimal numeral of `n` to `text`.
pub fn push_decimal(text: &mut String, n: u64)
    ensures
        final(text)@ == old(text)@ + decimal(n as nat),
    decreases n,
{
    if n >= 10 {
        push_decimal(text, n / 10);
    }
    text.append(digit_str(n % 10));
    assert(text@ =~= old(text)@ + decimal(n as nat));
}

/// `prefix` followed by the decimal numeral of `n`.
pub fn with_decimal(prefix: &str, n: u64) -> (text: String)
    ensures
        text@ == prefix@ + decimal(n as nat),
{
    let mut text = String::from_str(prefix);
    push_decimal(&mut text, n);
    text
}

/// `name` followed by the decimal numeral of `n`.
pub open spec fn suffixed(name: Seq<char>, n: nat) -> Seq<char> {
    name + decimal(n)
}

/// Different numbers give different suffixed names.
pub proof fn lemma_suffixed_injective(name: Seq<char>, a: nat, b: nat)
    requires
        suffixed(name, a) == suffixed(name, b),
    ensures
        a == b,
{
    lemma_suffix_cancel(name, decimal(a), decimal(b));
    lemma_decimal_injective(a, b);
}

/// Whether one of the entries has this name.
pub open spec fn has_name<T>(entries: Seq<(Seq<char>, T)>, name: Seq<char>) -> bool {
    exists|k: int| 0 <= k < entries.len() && (#[trigger] entries[k]).0 == name
}

/// What the first entry of this name holds, if there is one.
pub open spec fn first_named<T>(entries: Seq<(Seq<char>, T)>, name: Seq<char>) -> Option<T>
    decreases entries.len(),
{
    if entries.len() == 0 {
        None
    } else if entries.first().0 == name {
        Some(entries.first().1)
    } else {
        first_named(entries.drop_first(), name)
    }
}

/// The name of the first entry that holds `item`, if there is one.
pub open spec fn first_name_of<T>(entries: Seq<(Seq<char>, T)>, item: T) -> Option<Seq<char>>
    decreases entries.len(),
{
    if entries.len() == 0 {
        None
    } else if entries.first().1 == item {
        Some(entries.first().0)
    } else {
        first_name_of(entries.drop_first(), item)
    }
}

/// Where a name belongs in a list that is in increasing order: behind the
/// entries whose names come before it.
pub open spec fn insertion_point<T>(entries: Seq<(Seq<char>, T)>, name: Seq<char>) -> int
    decreases entries.len(),
{
    if entries.len() == 0 {
        0
    } else if name_before(entries.first().0, name) {
        1 + insertion_point(entries.drop_first(), name)
    } else {
        0
    }
}

/// `n` is the least number whose suffixed name no entry has.
pub open spec fn is_first_free_suffix<T>(
    entries: Seq<(Seq<char>, T)>,
    name: Seq<char>,
    n: nat,
) -> bool {
    &&& !has_name(entries, suffixed(name, n))
    &&& forall|m: nat| m < n ==> has_name(entries, #[trigger] suffixed(name, m))
}

/// The name under which an entry can be added: `name` itself if no entry has
/// it, and else `name` followed by the least number that makes it new.
pub open spec fn unique_name<T>(entries: Seq<(Seq<char>, T)>, name: Seq<char>) -> Seq<char> {
    if !has_name(entries, name) {
        name
    } else {
        suffixed(name, choose|n: nat| is_first_free_suffix(entries, name, n))
    }
}

/// There is only one least free number.
pub proof fn lemma_first_free_suffix_unique<T>(
    entries: Seq<(Seq<char>, T)>,
    name: Seq<char>,
    n: nat,
)
    requires
        is_first_free_suffix(entries, name, n),
    ensures
        (choose|m: nat| is_first_free_suffix(entries, name, m)) == n,
{
    let m = choose|m: nat| is_first_free_suffix(entries, name, m);
    if m < n {
        assert(has_name(entries, suffixed(name, m)));
    } else if n < m {
        assert(has_name(entries, suffixed(name, n)));
    }
}

/// Names that differ in their number need an entry each: if the first `n`
/// suffixed names are all taken, there are at least `n` entries.
pub proof fn lemma_suffixes_need_room<T>(entries: Seq<(Seq<char>, T)>, name: Seq<char>, n: nat)
    requires
        forall|m: nat| m < n ==> has_name(entries, #[trigger] suffixed(name, m)),
    ensures
        n <= entries.len(),
    decreases n,
{
    if n > 0 {
        let last = (n - 1) as nat;
        assert(has_name(entries, suffixed(name, last)));
        let at = choose|k: int| 0 <= k < entries.len() && (#[trigger] entries[k]).0 == suffixed(
            name,
            last,
        );
        let rest = entries.remove(at);
        assert forall|m: nat| m < last implies has_name(rest, #[trigger] suffixed(name, m)) by {
            assert(has_name(entries, suffixed(name, m)));
            let k = choose|k: int| 0 <= k < entries.len() && (#[trigger] entries[k]).0 == suffixed(
                name,
                m,
            );
            if k == at {
                lemma_suffixed_injective(name, m, last);
            } else if k < at {
                assert(rest[k] == entries[k]);
            } else {
                assert(rest[k - 1] == entries[k]);
            }
        }
        lemma_suffixes_need_room(rest, name, last);
    }
}

/// The candidate for a label after `k` collisions: `seed` followed by the
/// numerals of `start`, `start + 1`, and so on, `k` of them.
pub open spec fn label_candidate(seed: Seq<char>, start: nat, k: nat) -> Seq<char>
    decreases k,
{
    if k == 0 {
        seed
    } else {
        label_candidate(seed, start, (k - 1) as nat) + decimal((start + k - 1) as nat)
    }
}

/// The label generated at a counter value, when nothing is in its way.
pub open spec fn block_label(n: nat) -> Seq<char> {
    "block"@ + decimal(n)
}

/// The first candidate for a label: the hint, or without one the label
/// generated from the counter.
pub open spec fn label_seed(hint: Option<Seq<char>>, before: nat) -> Seq<char> {
    match hint {
        Some(h) => h,
        None => block_label(before),
    }
}

/// The counter value that the first collision takes: generating the first
/// candidate has cost one already.
pub open spec fn label_start(hint: Option<Seq<char>>, before: nat) -> nat {
    match hint {
        Some(_) => before,
        None => before + 1,
    }
}

/// What it means that `label` was issued among `labels` while the counter
/// went from `before` to `after`. Without a hint the first candidate is
/// generated from the counter; each candidate that is taken costs one more
/// number, which is appended; the first candidate that is free is the label.
pub open spec fn label_issued(
    labels: Seq<Seq<char>>,
    hint: Option<Seq<char>>,
    before: nat,
    after: nat,
    label: Seq<char>,
) -> bool {
    &&& label_start(hint, before) <= after
    &&& label == label_candidate(
        label_seed(hint, before),
        label_start(hint, before),
        (after - label_start(hint, before)) as nat,
    )
    &&& !labels.contains(label)
    &&& forall|j: nat|
        j < after - label_start(hint, before) ==> labels.contains(
            #[trigger] label_candidate(label_seed(hint, before), label_start(hint, before), j),
        )
}

/// How many of the labels have at least `n` characters.
pub open spec fn long_labels(labels: Seq<Seq<char>>, n: nat) -> nat
    decreases labels.len(),
{
    if labels.len() == 0 {
        0
    } else {
        long_labels(labels.drop_last(), n) + if labels.last().len() >= n {
            1nat
        } else {
            0nat
        }
    }
}

pub proof fn lemma_long_labels_bound(labels: Seq<Seq<char>>, n: nat)
    ensures
        long_labels(labels, n) <= labels.len(),
    decreases labels.len(),
{
    if labels.len() > 0 {
        lemma_long_labels_bound(labels.drop_last(), n);
    }
}

pub proof fn lemma_long_labels_monotone(labels: Seq<Seq<char>>, n: nat, m: nat)
    requires
        n <= m,
    ensures
        long_labels(labels, m) <= long_labels(labels, n),
    decreases labels.len(),
{
    if labels.len() > 0 {
        lemma_long_labels_monotone(labels.drop_last(), n, m);
    }
}

/// A label that is taken rules out at least itself once candidates get longer.
pub proof fn lemma_long_labels_shrink(labels: Seq<Seq<char>>, taken: Seq<char>, m: nat)
    requires
        labels.contains(taken),
        taken.len() < m,
    ensures
        long_labels(labels, m) < long_labels(labels, taken.len()),
    decreases labels.len(),
{
    let rest = labels.drop_last();
    if labels.last() == taken {
        lemma_long_labels_monotone(rest, taken.len(), m);
    } else {
        let i = choose|i: int| 0 <= i < labels.len() && labels[i] == taken;
        assert(rest[i] == taken);
        lemma_long_labels_shrink(rest, taken, m);
    }
}

/// Lexicographic order on byte strings: `a` and `b` agree on their first `i`
/// bytes, and there `a` ends while `b` goes on, or `a` has the smaller byte.
pub open spec fn bytes_before(a: Seq<u8>, b: Seq<u8>) -> bool {
    exists|i: int| #[trigger] splits_before(a, b, i)
}

/// `i` shows that `a` comes before `b`.
pub open spec fn splits_before(a: Seq<u8>, b: Seq<u8>, i: int) -> bool {
    &&& 0 <= i <= a.len()
    &&& i < b.len()
    &&& a.take(i) == b.take(i)
    &&& i < a.len() ==> a[i] < b[i]
}

/// The order of names: that of their UTF-8 encodings, byte by byte. It is the
/// order in which a function's local variables are listed.
pub open spec fn name_before(a: Seq<char>, b: Seq<char>) -> bool {
    bytes_before(encode_utf8(a), encode_utf8(b))
}

/// How one name stands to another.
#[derive(Clone, Copy, Debug, PartialEq, Eq, Structural)]
pub enum NameOrder {
    Before,
    Same,
    After,
}

/// How `a` stands to `b` in the order of names.
pub open spec fn name_order(a: Seq<char>, b: Seq<char>) -> NameOrder {
    if a == b {
        NameOrder::Same
    } else if name_before(a, b) {
        NameOrder::Before
    } else {
        NameOrder::After
    }
}

/// Of two byte strings at most one comes before the other.
pub proof fn lemma_bytes_before_asymmetric(a: Seq<u8>, b: Seq<u8>)
    requires
        bytes_before(a, b),
    ensures
        !bytes_before(b, a),
{
    let i = choose|i: int| #[trigger] splits_before(a, b, i);
    assert forall|j: int| !#[trigger] splits_before(b, a, j) by {
        if splits_before(b, a, j) {
            if j < i {
                assert(a.take(i)[j] == b.take(i)[j]);
            } else if j > i {
                assert(b.take(j)[i] == a.take(j)[i]);
            }
        }
    }
}

/// The order on byte strings is transitive.
pub proof fn lemma_bytes_before_transitive(a: Seq<u8>, b: Seq<u8>, c: Seq<u8>)
    requires
        bytes_before(a, b),
        bytes_before(b, c),
    ensures
        bytes_before(a, c),
{
    let i = choose|i: int| #[trigger] splits_before(a, b, i);
    let j = choose|j: int| #[trigger] splits_before(b, c, j);
    let k = if i < j {
        i
    } else {
        j
    };
    assert(a.take(k) =~= c.take(k)) by {
        assert forall|n: int| 0 <= n < k implies a[n] == c[n] by {
            assert(a.take(i)[n] == b.take(i)[n]);
        }
    }
    if i < j {
        assert(b.take(j)[i] == c.take(j)[i]);
    } else if j < i {
        assert(a.take(i)[j] == b.take(i)[j]);
    }
    assert(splits_before(a, c, k));
}

/// No name comes before itself.
pub proof fn lemma_name_before_irreflexive(a: Seq<char>)
    ensures
        !name_before(a, a),
{
    let x = encode_utf8(a);
    assert forall|i: int| !#[trigger] splits_before(x, x, i) by {}
}

/// Of two names at most one comes before the other.
pub proof fn lemma_name_before_asymmetric(a: Seq<char>, b: Seq<char>)
    requires
        name_before(a, b),
    ensures
        !name_before(b, a),
        a != b,
{
    lemma_bytes_before_asymmetric(encode_utf8(a), encode_utf8(b));
    lemma_name_before_irreflexive(a);
}

/// The order of names is transitive.
pub proof fn lemma_name_before_transitive(a: Seq<char>, b: Seq<char>, c: Seq<char>)
    requires
        name_before(a, b),
        name_before(b, c),
    ensures
        name_before(a, c),
{
    lemma_bytes_before_transitive(encode_utf8(a), encode_utf8(b), encode_utf8(c));
}

/// A name that is neither the same as another nor before it comes after it.
pub proof fn lemma_name_order_after(a: Seq<char>, b: Seq<char>)
    requires
        name_order(a, b) == NameOrder::After,
    ensures
        name_before(b, a),
{
    let x = encode_utf8(a);
    let y = encode_utf8(b);
    encode_utf8_decode_utf8(a);
    encode_utf8_decode_utf8(b);
    lemma_bytes_total(x, y);
}

/// Two byte strings are the same, or one comes before the other.
pub proof fn lemma_bytes_total(a: Seq<u8>, b: Seq<u8>)
    ensures
        a == b || bytes_before(a, b) || bytes_before(b, a),
    decreases a.len() + b.len(),
{
    if a.len() == 0 && b.len() == 0 {
        assert(a =~= b);
    } else if a.len() == 0 {
        assert(a.take(0) =~= b.take(0));
        assert(splits_before(a, b, 0));
    } else if b.len() == 0 {
        assert(b.take(0) =~= a.take(0));
        assert(splits_before(b, a, 0));
    } else if a[0] < b[0] {
        assert(a.take(0) =~= b.take(0));
        assert(splits_before(a, b, 0));
    } else if b[0] < a[0] {
        assert(b.take(0) =~= a.take(0));
    } else {
        let x = a.drop_first();
        let y = b.drop_first();
        lemma_bytes_total(x, y);
        if x == y {
            assert(a =~= seq![a[0]] + x);
        } else if bytes_before(x, y) {
            let i = choose|i: int| #[trigger] splits_before(x, y, i);
            assert(a.take(i + 1) =~= seq![a[0]] + x.take(i));
            assert(b.take(i + 1) =~= seq![b[0]] + y.take(i));
            assert(splits_before(a, b, i + 1));
        } else {
            let i = choose|i: int| #[trigger] splits_before(y, x, i);
            assert(a.take(i + 1) =~= seq![a[0]] + x.take(i));
            assert(b.take(i + 1) =~= seq![b[0]] + y.take(i));
            assert(splits_before(b, a, i + 1));
        }
    }
}

/// Compare two names.
pub fn compare_names(a: &str, b: &str) -> (order: NameOrder)
    ensures
        order == name_order(a@, b@),
{
    let x = a.as_bytes();
    let y = b.as_bytes();
    let mut i: usize = 0;
    while i < x.len() && i < y.len()
        invariant
            i <= x.len(),
            i <= y.len(),
            x@ == encode_utf8(a@),
            y@ == encode_utf8(b@),
            x@.take(i as int) == y@.take(i as int),
        decreases x.len() - i,
    {
        if x[i] < y[i] {
            proof {
                assert(splits_before(x@, y@, i as int));
                lemma_name_before_asymmetric(a@, b@);
            }
            return NameOrder::Before;
        }
        if x[i] > y[i] {
            proof {
                assert(splits_before(y@, x@, i as int));
                lemma_name_before_asymmetric(b@, a@);
            }
            return NameOrder::After;
        }
        i += 1;
    }
    if i < y.len() {
        proof {
            assert(splits_before(x@, y@, i as int));
            lemma_name_before_asymmetric(a@, b@);
        }
        NameOrder::Before
    } else if i < x.len() {
        proof {
            assert(splits_before(y@, x@, i as int));
            lemma_name_before_asymmetric(b@, a@);
        }
        NameOrder::After
    } else {
        proof {
            assert(x@ =~= x@.take(i as int));
            assert(y@ =~= y@.take(i as int));
            encode_utf8_decode_utf8(a@);
            encode_utf8_decode_utf8(b@);
        }
        NameOrder::Same
    }
}

} // verus!
