//! Counters under a list of labels, kept in label order.

use vstd::prelude::*;

verus! {

/// Whether `a` comes before `b`, character by character.
pub open spec fn text_less(a: Seq<char>, b: Seq<char>) -> bool
    decreases b.len(),
{
    b.len() > 0 && (a.len() == 0 || a[0] < b[0] || (a[0] == b[0] && text_less(
        a.drop_first(),
        b.drop_first(),
    )))
}

/// Whether the labels `a` come before the labels `b`, label by label.
pub open spec fn key_less(a: Seq<Seq<char>>, b: Seq<Seq<char>>) -> bool
    decreases b.len(),
{
    b.len() > 0 && (a.len() == 0 || text_less(a[0], b[0]) || (a[0] == b[0] && key_less(
        a.drop_first(),
        b.drop_first(),
    )))
}

pub proof fn lemma_text_less_strict(a: Seq<char>)
    ensures
        !text_less(a, a),
    decreases a.len(),
{
    if a.len() > 0 {
        lemma_text_less_strict(a.drop_first());
    }
}

pub proof fn lemma_text_less_transitive(a: Seq<char>, b: Seq<char>, c: Seq<char>)
    requires
        text_less(a, b),
        text_less(b, c),
    ensures
        text_less(a, c),
    decreases c.len(),
{
    if a.len() > 0 && a[0] == b[0] && b[0] == c[0] {
        lemma_text_less_transitive(a.drop_first(), b.drop_first(), c.drop_first());
    }
}

pub proof fn lemma_text_less_total(a: Seq<char>, b: Seq<char>)
    ensures
        a == b || text_less(a, b) || text_less(b, a),
    decreases b.len(),
{
    if a.len() == 0 && b.len() == 0 {
        assert(a =~= b);
    } else if a.len() > 0 && b.len() > 0 && a[0] == b[0] {
        lemma_text_less_total(a.drop_first(), b.drop_first());
        if a.drop_first() == b.drop_first() {
            assert(a =~= seq![a[0]] + a.drop_first());
            assert(b =~= seq![b[0]] + b.drop_first());
        }
    }
}

pub proof fn lemma_key_less_strict(a: Seq<Seq<char>>)
    ensures
        !key_less(a, a),
    decreases a.len(),
{
    if a.len() > 0 {
        lemma_text_less_strict(a[0]);
        lemma_key_less_strict(a.drop_first());
    }
}

pub proof fn lemma_key_less_transitive(a: Seq<Seq<char>>, b: Seq<Seq<char>>, c: Seq<Seq<char>>)
    requires
        key_less(a, b),
        key_less(b, c),
    ensures
        key_less(a, c),
    decreases c.len(),
{
    if a.len() > 0 {
        if text_less(a[0], b[0]) && text_less(b[0], c[0]) {
            lemma_text_less_transitive(a[0], b[0], c[0]);
        } else if a[0] == b[0] && b[0] == c[0] && key_less(a.drop_first(), b.drop_first())
            && key_less(b.drop_first(), c.drop_first()) {
            lemma_key_less_transitive(a.drop_first(), b.drop_first(), c.drop_first());
        }
    }
}

pub proof fn lemma_key_less_total(a: Seq<Seq<char>>, b: Seq<Seq<char>>)
    ensures
        a == b || key_less(a, b) || key_less(b, a),
    decreases b.len(),
{
    if a.len() == 0 && b.len() == 0 {
        assert(a =~= b);
    } else if a.len() > 0 && b.len() > 0 {
        lemma_text_less_total(a[0], b[0]);
        if a[0] == b[0] {
            lemma_key_less_total(a.drop_first(), b.drop_first());
            if a.drop_first() == b.drop_first() {
                assert(a =~= seq![a[0]] + a.drop_first());
                assert(b =~= seq![b[0]] + b.drop_first());
            }
        }
    }
}

/// One set of labels and how often it was counted.
pub struct Entry {
    pub labels: Vec<String>,
    pub count: u64,
}

pub ghost struct EntryView {
    pub labels: Seq<Seq<char>>,
    pub count: u64,
}

impl View for Entry {
    type V = EntryView;

    open spec fn view(&self) -> EntryView {
        EntryView { labels: crate::text::texts(self.labels@), count: self.count }
    }
}

/// Counters keyed by labels, in ascending label order, each set of labels once.
pub struct Tally {
    entries: Vec<Entry>,
}

impl View for Tally {
    type V = Seq<EntryView>;

    closed spec fn view(&self) -> Seq<EntryView> {
        self.entries@.map_values(|e: Entry| e@)
    }
}

/// The entries stand in strictly ascending label order.
pub open spec fn ascending(s: Seq<EntryView>) -> bool {
    forall|i: int, j: int|
        0 <= i < j < s.len() ==> key_less((#[trigger] s[i]).labels, (#[trigger] s[j]).labels)
}

/// The count held for `labels`; what was never counted stands at zero.
pub open spec fn count_of(s: Seq<EntryView>, labels: Seq<Seq<char>>) -> u64 {
    if exists|i: int| 0 <= i < s.len() && (#[trigger] s[i]).labels == labels {
        let i = choose|i: int| 0 <= i < s.len() && (#[trigger] s[i]).labels == labels;
        s[i].count
    } else {
        0
    }
}

/// Whether `labels` were ever counted.
pub open spec fn counted(s: Seq<EntryView>, labels: Seq<Seq<char>>) -> bool {
    exists|i: int| 0 <= i < s.len() && (#[trigger] s[i]).labels == labels
}

/// Every set of labels but `key` is counted in `after` as it was in `before`.
pub open spec fn only_changed(before: Seq<EntryView>, after: Seq<EntryView>, key: Seq<Seq<char>>) -> bool {
    forall|k: Seq<Seq<char>>|
        k != key ==> #[trigger] count_of(after, k) == count_of(before, k) && counted(after, k)
            == counted(before, k)
}

/// What stands in an entry is the count of its labels.
pub proof fn lemma_count_at(s: Seq<EntryView>, i: int)
    requires
        ascending(s),
        0 <= i < s.len(),
    ensures
        counted(s, s[i].labels),
        count_of(s, s[i].labels) == s[i].count,
{
    let j = choose|j: int| 0 <= j < s.len() && (#[trigger] s[j]).labels == s[i].labels;
    lemma_key_less_strict(s[i].labels);
    assert(s[i].labels == s[i].labels);
    assert(i == j);
}

/// Whether `a` comes before `b`, character by character.
fn text_before(a: &str, b: &str) -> (r: bool)
    ensures
        r == text_less(a@, b@),
{
    let v = crate::text::chars_of(a);
    let w = crate::text::chars_of(b);
    let mut i: usize = 0;
    assert(v@.skip(0) =~= v@);
    assert(w@.skip(0) =~= w@);
    while i < v.len() && i < w.len() && v[i] == w[i]
        invariant
            i <= v@.len(),
            i <= w@.len(),
            text_less(a@, b@) == text_less(v@.skip(i as int), w@.skip(i as int)),
        decreases v.len() - i,
    {
        assert(v@.skip(i as int).drop_first() =~= v@.skip(i + 1));
        assert(w@.skip(i as int).drop_first() =~= w@.skip(i + 1));
        i += 1;
    }
    i < w.len() && (i == v.len() || v[i] < w[i])
}

/// Whether the labels `a` come before the labels `b`.
fn labels_before(a: &Vec<String>, b: &Vec<String>) -> (r: bool)
    ensures
        r == key_less(crate::text::texts(a@), crate::text::texts(b@)),
{
    let ghost v = crate::text::texts(a@);
    let ghost w = crate::text::texts(b@);
    let mut i: usize = 0;
    assert(v.skip(0) =~= v);
    assert(w.skip(0) =~= w);
    while i < a.len() && i < b.len() && a[i] == b[i]
        invariant
            i <= a@.len(),
            i <= b@.len(),
            v == crate::text::texts(a@),
            w == crate::text::texts(b@),
            key_less(v, w) == key_less(v.skip(i as int), w.skip(i as int)),
        decreases a.len() - i,
    {
        proof {
            lemma_text_less_strict(v[i as int]);
            assert(v.skip(i as int).drop_first() =~= v.skip(i + 1));
            assert(w.skip(i as int).drop_first() =~= w.skip(i + 1));
        }
        i += 1;
    }
    i < b.len() && (i == a.len() || text_before(a[i].as_str(), b[i].as_str()))
}

/// Whether two lists of labels are the same.
fn same_labels(a: &Vec<String>, b: &Vec<String>) -> (r: bool)
    ensures
        r == (crate::text::texts(a@) == crate::text::texts(b@)),
{
    if a.len() != b.len() {
        assert(crate::text::texts(a@).len() != crate::text::texts(b@).len());
        return false;
    }
    let mut i: usize = 0;
    while i < a.len()
        invariant
            i <= a@.len(),
            a@.len() == b@.len(),
            forall|j: int| 0 <= j < i ==> a@[j]@ == b@[j]@,
        decreases a.len() - i,
    {
        if a[i] != b[i] {
            assert(crate::text::texts(a@)[i as int] != crate::text::texts(b@)[i as int]);
            return false;
        }
        i += 1;
    }
    assert(crate::text::texts(a@) =~= crate::text::texts(b@));
    true
}

impl Tally {
    /// The order that every tally keeps.
    #[verifier::type_invariant]
    spec fn ordered(&self) -> bool {
        ascending(self.view())
    }

    /// A tally that has counted nothing.
    pub fn new() -> (r: Self)
        ensures
            r@ == Seq::<EntryView>::empty(),
    {
        let entries: Vec<Entry> = Vec::new();
        assert(entries@.map_values(|e: Entry| e@) =~= Seq::<EntryView>::empty());
        Tally { entries }
    }

    /// How many sets of labels have been counted.
    pub fn len(&self) -> (r: usize)
        ensures
            r == self@.len(),
    {
        self.entries.len()
    }

    /// The entry at position `i`.
    pub fn get(&self, i: usize) -> (r: &Entry)
        requires
            i < self@.len(),
        ensures
            r@ == self@[i as int],
            ascending(self@),
    {
        proof {
            use_type_invariant(self);
        }
        &self.entries[i]
    }

    /// Adds `by` to the count of `labels`, which starts at zero. The sum wraps.
    pub fn bump(&mut self, labels: Vec<String>, by: u64)
        ensures
            ascending(final(self)@),
            ({
                let key = crate::text::texts(labels@);
                &&& counted(final(self)@, key)
                &&& count_of(final(self)@, key) == vstd::wrapping::u64_specs::wrapping_add(
                    count_of(old(self)@, key),
                    by,
                )
                &&& only_changed(old(self)@, final(self)@, key)
            }),
    {
        proof {
            use_type_invariant(&*self);
        }
        let ghost before = self@;
        let ghost key = crate::text::texts(labels@);
        let mut entries: Vec<Entry> = Vec::new();
        assert(entries@.map_values(|e: Entry| e@) =~= Seq::<EntryView>::empty());
        std::mem::swap(&mut entries, &mut self.entries);
        let mut i: usize = 0;
        while i < entries.len() && labels_before(&entries[i].labels, &labels)
            invariant
                i <= entries@.len(),
                before == entries@.map_values(|e: Entry| e@),
                key == crate::text::texts(labels@),
                forall|j: int| 0 <= j < i ==> key_less((#[trigger] before[j]).labels, key),
            decreases entries.len() - i,
        {
            assert(before[i as int] == entries@[i as int]@);
            i += 1;
        }
        if i < entries.len() && same_labels(&entries[i].labels, &labels) {
            assert(before[i as int] == entries@[i as int]@);
            let count: u64 = entries[i].count.wrapping_add(by);
            entries.set(i, Entry { labels, count });
            proof {
                let after = entries@.map_values(|e: Entry| e@);
                assert(after =~= before.update(i as int, EntryView { labels: key, count }));
                lemma_replaced(before, i as int, count);
            }
            self.entries = entries;
        } else {
            let ghost fresh = EntryView { labels: key, count: by };
            proof {
                if i < entries@.len() {
                    assert(before[i as int] == entries@[i as int]@);
                    lemma_key_less_total(before[i as int].labels, key);
                }
                lemma_inserted(before, i as int, fresh);
            }
            entries.insert(i, Entry { labels, count: by });
            proof {
                let after = entries@.map_values(|e: Entry| e@);
                assert(after =~= before.insert(i as int, fresh));
                assert(vstd::wrapping::u64_specs::wrapping_add(0u64, by) == by);
            }
            self.entries = entries;
        }
    }
}

proof fn lemma_replaced(s: Seq<EntryView>, i: int, count: u64)
    requires
        ascending(s),
        0 <= i < s.len(),
    ensures
        ({
            let key = s[i].labels;
            let t = s.update(i, EntryView { labels: key, count });
            &&& ascending(t)
            &&& counted(t, key)
            &&& count_of(t, key) == count
            &&& count_of(s, key) == s[i].count
            &&& only_changed(s, t, key)
        }),
{
    let key = s[i].labels;
    let t = s.update(i, EntryView { labels: key, count });
    assert forall|a: int, b: int| 0 <= a < b < t.len() implies key_less(
        (#[trigger] t[a]).labels,
        (#[trigger] t[b]).labels,
    ) by {
        assert(t[a].labels == s[a].labels && t[b].labels == s[b].labels);
    }
    lemma_count_at(t, i);
    lemma_count_at(s, i);
    assert forall|k: Seq<Seq<char>>| k != key implies #[trigger] count_of(t, k) == count_of(s, k)
        && counted(t, k) == counted(s, k) by {
        if counted(s, k) {
            let j = choose|j: int| 0 <= j < s.len() && (#[trigger] s[j]).labels == k;
            assert(t[j] == s[j]);
            lemma_count_at(t, j);
            lemma_count_at(s, j);
        }
        if counted(t, k) {
            let j = choose|j: int| 0 <= j < t.len() && (#[trigger] t[j]).labels == k;
            assert(t[j] == s[j]);
        }
    }
}

proof fn lemma_inserted(s: Seq<EntryView>, i: int, e: EntryView)
    requires
        ascending(s),
        0 <= i <= s.len(),
        forall|j: int| 0 <= j < i ==> key_less((#[trigger] s[j]).labels, e.labels),
        i < s.len() ==> key_less(e.labels, s[i].labels),
    ensures
        ascending(s.insert(i, e)),
        counted(s.insert(i, e), e.labels),
        count_of(s.insert(i, e), e.labels) == e.count,
        count_of(s, e.labels) == 0,
        only_changed(s, s.insert(i, e), e.labels),
{
    let t = s.insert(i, e);
    assert forall|j: int| i <= j < s.len() implies key_less(
        e.labels,
        (#[trigger] s[j]).labels,
    ) by {
        if j > i {
            lemma_key_less_transitive(e.labels, s[i].labels, s[j].labels);
        }
    }
    assert forall|j: int| 0 <= j < s.len() implies (#[trigger] s[j]).labels != e.labels by {
        lemma_key_less_strict(e.labels);
    }
    assert forall|a: int, b: int| 0 <= a < b < t.len() implies key_less(
        (#[trigger] t[a]).labels,
        (#[trigger] t[b]).labels,
    ) by {
        if a < i && b < i {
            assert(t[a] == s[a] && t[b] == s[b]);
        } else if a < i && b == i {
            assert(t[a] == s[a]);
        } else if a < i {
            assert(t[a] == s[a] && t[b] == s[b - 1]);
        } else if a == i {
            assert(t[b] == s[b - 1]);
        } else {
            assert(t[a] == s[a - 1] && t[b] == s[b - 1]);
        }
    }
    assert(t[i] == e);
    lemma_count_at(t, i);
    assert forall|k: Seq<Seq<char>>| k != e.labels implies #[trigger] count_of(t, k) == count_of(s, k)
        && counted(t, k) == counted(s, k) by {
        if counted(s, k) {
            let j = choose|j: int| 0 <= j < s.len() && (#[trigger] s[j]).labels == k;
            let m = if j < i { j } else { j + 1 };
            assert(t[m] == s[j]);
            lemma_count_at(t, m);
            lemma_count_at(s, j);
        }
        if counted(t, k) {
            let j = choose|j: int| 0 <= j < t.len() && (#[trigger] t[j]).labels == k;
            let m = if j < i { j } else { j - 1 };
            assert(t[j] == s[m]);
        }
    }
}

/// What is left of a tally without its last entry.
proof fn lemma_all_but_last(s: Seq<EntryView>)
    requires
        ascending(s),
        s.len() > 0,
    ensures
        ascending(s.drop_last()),
        forall|k: Seq<Seq<char>>|
            #[trigger] counted(s.drop_last(), k) == (counted(s, k) && k != s.last().labels),
        forall|k: Seq<Seq<char>>|
            #[trigger] count_of(s.drop_last(), k) == (if k == s.last().labels {
                0
            } else {
                count_of(s, k)
            }),
{
    let front = s.drop_last();
    let last = s.last().labels;
    assert(ascending(front)) by {
        assert forall|a: int, b: int| 0 <= a < b < front.len() implies key_less(
            (#[trigger] front[a]).labels,
            (#[trigger] front[b]).labels,
        ) by {
            assert(front[a] == s[a] && front[b] == s[b]);
        }
    }
    assert forall|k: Seq<Seq<char>>|
        #[trigger] counted(front, k) == (counted(s, k) && k != last) by {
        lemma_key_less_strict(last);
        if counted(front, k) {
            let j = choose|j: int| 0 <= j < front.len() && (#[trigger] front[j]).labels == k;
            assert(s[j].labels == k);
            assert(key_less(s[j].labels, s[s.len() - 1].labels));
        }
        if counted(s, k) && k != last {
            let j = choose|j: int| 0 <= j < s.len() && (#[trigger] s[j]).labels == k;
            assert(front[j].labels == k);
        }
    }
    assert forall|k: Seq<Seq<char>>|
        #[trigger] count_of(front, k) == (if k == last {
            0
        } else {
            count_of(s, k)
        }) by {
        assert(counted(front, k) == (counted(s, k) && k != last));
        if counted(front, k) {
            let j = choose|j: int| 0 <= j < front.len() && (#[trigger] front[j]).labels == k;
            assert(s[j] == front[j]);
            lemma_count_at(front, j);
            lemma_count_at(s, j);
        }
    }
}

/// Two tallies in order that count the same are the same.
pub proof fn lemma_same_tally(s: Seq<EntryView>, t: Seq<EntryView>)
    requires
        ascending(s),
        ascending(t),
        forall|k: Seq<Seq<char>>| #[trigger] counted(s, k) == counted(t, k),
        forall|k: Seq<Seq<char>>| #[trigger] count_of(s, k) == count_of(t, k),
    ensures
        s == t,
    decreases s.len(),
{
    if s.len() == 0 || t.len() == 0 {
        if s.len() > 0 {
            lemma_count_at(s, 0);
        }
        if t.len() > 0 {
            lemma_count_at(t, 0);
            assert(counted(s, t[0].labels));
        }
        assert(s =~= t);
    } else {
        let a = s.last().labels;
        let b = t.last().labels;
        lemma_count_at(s, s.len() - 1);
        lemma_count_at(t, t.len() - 1);
        assert(counted(t, a));
        assert(counted(s, b));
        let j = choose|j: int| 0 <= j < t.len() && (#[trigger] t[j]).labels == a;
        let i = choose|i: int| 0 <= i < s.len() && (#[trigger] s[i]).labels == b;
        if j < t.len() - 1 && i < s.len() - 1 {
            assert(key_less(t[j].labels, t[t.len() - 1].labels));
            assert(key_less(s[i].labels, s[s.len() - 1].labels));
            lemma_key_less_transitive(a, b, a);
            lemma_key_less_strict(a);
        }
        assert(a == b);
        assert(count_of(s, a) == count_of(t, a));
        lemma_all_but_last(s);
        lemma_all_but_last(t);
        let x = s.drop_last();
        let y = t.drop_last();
        assert forall|k: Seq<Seq<char>>| #[trigger] counted(x, k) == counted(y, k) by {
            assert(counted(s, k) == counted(t, k));
            assert(counted(y, k) == (counted(t, k) && k != b));
        }
        assert forall|k: Seq<Seq<char>>| #[trigger] count_of(x, k) == count_of(y, k) by {
            assert(count_of(s, k) == count_of(t, k));
            assert(count_of(y, k) == (if k == b {
                0
            } else {
                count_of(t, k)
            }));
        }
        lemma_same_tally(x, y);
        assert(s =~= x.push(s.last()));
        assert(t =~= y.push(t.last()));
    }
}

/// Where new labels belong.
proof fn lemma_a_place_for(s: Seq<EntryView>, key: Seq<Seq<char>>) -> (i: int)
    requires
        ascending(s),
        !counted(s, key),
    ensures
        0 <= i <= s.len(),
        forall|j: int| 0 <= j < i ==> key_less((#[trigger] s[j]).labels, key),
        i < s.len() ==> key_less(key, s[i].labels),
    decreases s.len(),
{
    if s.len() == 0 {
        0
    } else {
        let last = s[s.len() - 1].labels;
        lemma_key_less_total(last, key);
        if key_less(last, key) {
            assert forall|j: int| 0 <= j < s.len() implies key_less(
                (#[trigger] s[j]).labels,
                key,
            ) by {
                if j < s.len() - 1 {
                    lemma_key_less_transitive(s[j].labels, last, key);
                }
            }
            s.len() as int
        } else {
            let front = s.drop_last();
            lemma_all_but_last(s);
            assert(!counted(front, key));
            let i = lemma_a_place_for(front, key);
            assert forall|j: int| 0 <= j < i implies key_less((#[trigger] s[j]).labels, key) by {
                assert(front[j] == s[j]);
            }
            assert(i < front.len() ==> front[i] == s[i]);
            i
        }
    }
}

/// Where only one set of labels was counted, only its entry changed, or was put
/// in.
pub proof fn lemma_one_entry_changed(
    before: Seq<EntryView>,
    after: Seq<EntryView>,
    key: Seq<Seq<char>>,
) -> (i: int)
    requires
        ascending(before),
        ascending(after),
        counted(after, key),
        only_changed(before, after, key),
    ensures
        counted(before, key) ==> 0 <= i < before.len() && before[i] == (EntryView {
            labels: key,
            count: count_of(before, key),
        }) && after == before.update(
            i,
            EntryView { labels: key, count: count_of(after, key) },
        ),
        !counted(before, key) ==> 0 <= i <= before.len() && after == before.insert(
            i,
            EntryView { labels: key, count: count_of(after, key) },
        ),
{
    let e = EntryView { labels: key, count: count_of(after, key) };
    if counted(before, key) {
        let i = choose|i: int| 0 <= i < before.len() && (#[trigger] before[i]).labels == key;
        let t = before.update(i, e);
        lemma_replaced(before, i, e.count);
        lemma_count_as(before, after, t, key);
        lemma_same_tally(after, t);
        i
    } else {
        let i = lemma_a_place_for(before, key);
        let t = before.insert(i, e);
        lemma_inserted(before, i, e);
        lemma_count_as(before, after, t, key);
        lemma_same_tally(after, t);
        i
    }
}

proof fn lemma_count_as(
    before: Seq<EntryView>,
    s: Seq<EntryView>,
    t: Seq<EntryView>,
    key: Seq<Seq<char>>,
)
    requires
        counted(s, key),
        counted(t, key),
        count_of(s, key) == count_of(t, key),
        only_changed(before, s, key),
        only_changed(before, t, key),
    ensures
        forall|k: Seq<Seq<char>>| #[trigger] counted(s, k) == counted(t, k),
        forall|k: Seq<Seq<char>>| #[trigger] count_of(s, k) == count_of(t, k),
{
    assert forall|k: Seq<Seq<char>>| #[trigger] counted(s, k) == counted(t, k) by {
        if k != key {
            assert(count_of(s, k) == count_of(before, k));
            assert(count_of(t, k) == count_of(before, k));
        }
    }
    assert forall|k: Seq<Seq<char>>| #[trigger] count_of(s, k) == count_of(t, k) by {
        if k != key {
            assert(count_of(t, k) == count_of(before, k));
        }
    }
}

// ---------------------------------------------------------------------------
// What the order is
// ---------------------------------------------------------------------------

/// Texts are in the order of the first characters in which they differ, and a text
/// comes before any that goes on where it ends.
pub proof fn texts_are_ordered_by_their_first_difference(
    p: Seq<char>,
    c: char,
    x: Seq<char>,
    d: char,
    y: Seq<char>,
)
    ensures
        c < d ==> text_less(p + seq![c] + x, p + seq![d] + y),
        c > d ==> !text_less(p + seq![c] + x, p + seq![d] + y),
        text_less(p, p + seq![c] + x),
        !text_less(p + seq![c] + x, p),
    decreases p.len(),
{
    let a = p + seq![c] + x;
    let b = p + seq![d] + y;
    if p.len() > 0 {
        let q = p.drop_first();
        texts_are_ordered_by_their_first_difference(q, c, x, d, y);
        assert(a.drop_first() =~= q + seq![c] + x);
        assert(b.drop_first() =~= q + seq![d] + y);
    } else {
        assert(a[0] == c && b[0] == d);
    }
}

/// Lists of labels are in the order of the first labels in which they differ.
pub proof fn labels_are_ordered_by_their_first_difference(
    p: Seq<Seq<char>>,
    c: Seq<char>,
    x: Seq<Seq<char>>,
    d: Seq<char>,
    y: Seq<Seq<char>>,
)
    requires
        c != d,
    ensures
        key_less(p + seq![c] + x, p + seq![d] + y) == text_less(c, d),
    decreases p.len(),
{
    let a = p + seq![c] + x;
    let b = p + seq![d] + y;
    if p.len() > 0 {
        let q = p.drop_first();
        labels_are_ordered_by_their_first_difference(q, c, x, d, y);
        lemma_text_less_strict(p[0]);
        assert(a.drop_first() =~= q + seq![c] + x);
        assert(b.drop_first() =~= q + seq![d] + y);
        assert(a[0] == p[0] && b[0] == p[0]);
    } else {
        assert(a[0] == c && b[0] == d);
    }
}

} // verus!
