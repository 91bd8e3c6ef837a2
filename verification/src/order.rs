//! Stable sorting by keys.

use vstd::prelude::*;

verus! {

/// A sort key: a number first, then three texts.
pub struct SortRecord {
    pub primary: u128,
    pub artist: Vec<char>,
    pub title: Vec<char>,
    pub id: Vec<char>,
}

/// What a sort key says.
pub struct KeyModel {
    pub primary: nat,
    pub artist: Seq<char>,
    pub title: Seq<char>,
    pub id: Seq<char>,
}

impl SortRecord {
    /// The key without its representation.
    pub open spec fn model(self) -> KeyModel {
        KeyModel {
            primary: self.primary as nat,
            artist: self.artist@,
            title: self.title@,
            id: self.id@,
        }
    }
}

/// A key that is a number alone.
pub open spec fn number_key(primary: nat) -> KeyModel {
    KeyModel { primary, artist: Seq::empty(), title: Seq::empty(), id: Seq::empty() }
}

/// A run of keys without their representation.
pub open spec fn keys_model(keys: Seq<SortRecord>) -> Seq<KeyModel> {
    keys.map_values(|k: SortRecord| k.model())
}

/// Whether one text stands before another, going by their characters.
pub open spec fn text_before(a: Seq<char>, b: Seq<char>) -> bool
    decreases a.len(),
{
    if b.len() == 0 {
        false
    } else if a.len() == 0 {
        true
    } else if a[0] != b[0] {
        a[0] < b[0]
    } else {
        text_before(a.skip(1), b.skip(1))
    }
}

/// Whether one key stands before another.
pub open spec fn key_before(a: KeyModel, b: KeyModel) -> bool {
    if a.primary != b.primary {
        a.primary < b.primary
    } else if a.artist != b.artist {
        text_before(a.artist, b.artist)
    } else if a.title != b.title {
        text_before(a.title, b.title)
    } else {
        text_before(a.id, b.id)
    }
}

/// Whether the item at `i` goes before the item at `j`: by their keys, and with
/// equal keys in the order in which they stand.
pub open spec fn goes_before(keys: Seq<KeyModel>, i: int, j: int) -> bool {
    key_before(keys[i], keys[j]) || (!key_before(keys[j], keys[i]) && i < j)
}

/// Whether `order` lists the positions of all items, each once, so that every
/// item goes before those behind it.
pub open spec fn is_stable_order(keys: Seq<KeyModel>, order: Seq<usize>) -> bool {
    &&& order.len() == keys.len()
    &&& forall|i: int| 0 <= i < order.len() ==> (#[trigger] order[i]) < keys.len()
    &&& forall|i: int, j: int|
        0 <= i < j < order.len() ==> goes_before(
            keys,
            #[trigger] order[i] as int,
            #[trigger] order[j] as int,
        )
}

proof fn lemma_text_total(a: Seq<char>, b: Seq<char>)
    ensures
        text_before(a, b) ==> !text_before(b, a),
        a == b ==> !text_before(a, b),
        a != b ==> text_before(a, b) || text_before(b, a),
    decreases a.len(),
{
    if a.len() > 0 && b.len() > 0 && a[0] == b[0] {
        lemma_text_total(a.skip(1), b.skip(1));
        if a != b {
            assert(a.skip(1) != b.skip(1)) by {
                if a.skip(1) == b.skip(1) {
                    assert(a =~= seq![a[0]] + a.skip(1));
                    assert(b =~= seq![b[0]] + b.skip(1));
                }
            }
        }
    } else if a.len() == 0 && b.len() == 0 {
        assert(a =~= b);
    }
}

proof fn lemma_text_transitive(a: Seq<char>, b: Seq<char>, c: Seq<char>)
    requires
        text_before(a, b),
        text_before(b, c),
    ensures
        text_before(a, c),
    decreases a.len(),
{
    if a.len() > 0 && b.len() > 0 && c.len() > 0 && a[0] == b[0] && b[0] == c[0] {
        lemma_text_transitive(a.skip(1), b.skip(1), c.skip(1));
    }
}

/// Of two different keys exactly one stands before the other; a key never
/// stands before itself.
pub proof fn lemma_key_total(a: KeyModel, b: KeyModel)
    ensures
        key_before(a, b) ==> !key_before(b, a),
        a == b ==> !key_before(a, b),
        a != b ==> key_before(a, b) || key_before(b, a),
{
    lemma_text_total(a.artist, b.artist);
    lemma_text_total(a.title, b.title);
    lemma_text_total(a.id, b.id);
}

proof fn lemma_key_transitive(a: KeyModel, b: KeyModel, c: KeyModel)
    requires
        key_before(a, b),
        key_before(b, c),
    ensures
        key_before(a, c),
{
    if a.primary == b.primary && b.primary == c.primary {
        if a.artist != b.artist && b.artist != c.artist {
            lemma_text_transitive(a.artist, b.artist, c.artist);
            lemma_text_total(a.artist, c.artist);
        } else if a.artist == b.artist && b.artist == c.artist {
            if a.title != b.title && b.title != c.title {
                lemma_text_transitive(a.title, b.title, c.title);
                lemma_text_total(a.title, c.title);
            } else if a.title == b.title && b.title == c.title {
                lemma_text_transitive(a.id, b.id, c.id);
            }
        }
    }
}

/// Going before is transitive.
proof fn lemma_goes_transitive(keys: Seq<KeyModel>, i: int, j: int, k: int)
    requires
        goes_before(keys, i, j),
        goes_before(keys, j, k),
    ensures
        goes_before(keys, i, k),
{
    lemma_key_total(keys[i], keys[j]);
    lemma_key_total(keys[j], keys[k]);
    lemma_key_total(keys[i], keys[k]);
    if key_before(keys[i], keys[j]) && key_before(keys[j], keys[k]) {
        lemma_key_transitive(keys[i], keys[j], keys[k]);
    }
}

fn text_goes_before(a: &Vec<char>, b: &Vec<char>) -> (r: bool)
    ensures
        r == text_before(a@, b@),
{
    let mut i: usize = 0;
    proof {
        assert(a@.skip(0) =~= a@);
        assert(b@.skip(0) =~= b@);
    }
    loop
        invariant
            i <= a@.len(),
            i <= b@.len(),
            text_before(a@.skip(i as int), b@.skip(i as int)) == text_before(a@, b@),
        decreases a@.len() - i,
    {
        if i == b.len() {
            return false;
        }
        if i == a.len() {
            return true;
        }
        assert(a@.skip(i as int)[0] == a@[i as int]);
        assert(b@.skip(i as int)[0] == b@[i as int]);
        if a[i] != b[i] {
            return a[i] < b[i];
        }
        proof {
            assert(a@.skip(i as int).skip(1) =~= a@.skip(i as int + 1));
            assert(b@.skip(i as int).skip(1) =~= b@.skip(i as int + 1));
        }
        i = i + 1;
    }
}

fn key_goes_before(a: &SortRecord, b: &SortRecord) -> (r: bool)
    ensures
        r == key_before(a.model(), b.model()),
{
    proof {
        lemma_text_total(a.artist@, b.artist@);
        lemma_text_total(a.title@, b.title@);
    }
    if a.primary != b.primary {
        return a.primary < b.primary;
    }
    if text_goes_before(&a.artist, &b.artist) {
        return true;
    }
    if text_goes_before(&b.artist, &a.artist) {
        return false;
    }
    if text_goes_before(&a.title, &b.title) {
        return true;
    }
    if text_goes_before(&b.title, &a.title) {
        return false;
    }
    text_goes_before(&a.id, &b.id)
}

/// Whether `part` lists the positions from `lo` to `hi`, each once, in order.
spec fn is_sorted_part(keys: Seq<KeyModel>, part: Seq<usize>, lo: int, hi: int) -> bool {
    &&& part.len() == hi - lo
    &&& forall|i: int| 0 <= i < part.len() ==> lo <= (#[trigger] part[i]) < hi
    &&& forall|i: int, j: int|
        0 <= i < j < part.len() ==> goes_before(
            keys,
            #[trigger] part[i] as int,
            #[trigger] part[j] as int,
        )
}

fn merge(keys: &Vec<SortRecord>, left: &Vec<usize>, right: &Vec<usize>, lo: usize, mid: usize, hi: usize) -> (r:
    Vec<usize>)
    requires
        lo <= mid <= hi <= keys@.len(),
        is_sorted_part(keys_model(keys@), left@, lo as int, mid as int),
        is_sorted_part(keys_model(keys@), right@, mid as int, hi as int),
    ensures
        is_sorted_part(keys_model(keys@), r@, lo as int, hi as int),
{
    let ghost model = keys_model(keys@);
    let mut out: Vec<usize> = Vec::new();
    let mut i: usize = 0;
    let mut j: usize = 0;
    while i < left.len() || j < right.len()
        invariant
            lo <= mid <= hi <= keys@.len(),
            model == keys_model(keys@),
            is_sorted_part(model, left@, lo as int, mid as int),
            is_sorted_part(model, right@, mid as int, hi as int),
            i <= left@.len(),
            j <= right@.len(),
            out@.len() == i + j,
            forall|a: int| 0 <= a < out@.len() ==> lo <= (#[trigger] out@[a]) < hi,
            forall|a: int, b: int|
                0 <= a < b < out@.len() ==> goes_before(
                    model,
                    #[trigger] out@[a] as int,
                    #[trigger] out@[b] as int,
                ),
            forall|a: int, k: int|
                0 <= a < out@.len() && i <= k < left@.len() ==> goes_before(
                    model,
                    #[trigger] out@[a] as int,
                    #[trigger] left@[k] as int,
                ),
            forall|a: int, k: int|
                0 <= a < out@.len() && j <= k < right@.len() ==> goes_before(
                    model,
                    #[trigger] out@[a] as int,
                    #[trigger] right@[k] as int,
                ),
        decreases left@.len() - i + right@.len() - j,
    {
        let take_left = if i == left.len() {
            false
        } else if j == right.len() {
            true
        } else {
            !key_goes_before(&keys[right[j]], &keys[left[i]])
        };
        let ghost before = out@;
        if take_left {
            let next: usize = left[i];
            proof {
                if j < right@.len() {
                    assert(goes_before(model, next as int, right@[j as int] as int));
                    assert forall|k: int| j <= k < right@.len() implies goes_before(
                        model,
                        next as int,
                        #[trigger] right@[k] as int,
                    ) by {
                        if k > j {
                            lemma_goes_transitive(
                                model,
                                next as int,
                                right@[j as int] as int,
                                right@[k] as int,
                            );
                        }
                    }
                }
            }
            out.push(next);
            i = i + 1;
        } else {
            let next: usize = right[j];
            proof {
                if i < left@.len() {
                    lemma_key_total(model[next as int], model[left@[i as int] as int]);
                    assert(goes_before(model, next as int, left@[i as int] as int));
                    assert forall|k: int| i <= k < left@.len() implies goes_before(
                        model,
                        next as int,
                        #[trigger] left@[k] as int,
                    ) by {
                        if k > i {
                            lemma_goes_transitive(
                                model,
                                next as int,
                                left@[i as int] as int,
                                left@[k] as int,
                            );
                        }
                    }
                }
            }
            out.push(next);
            j = j + 1;
        }
        proof {
            assert(forall|a: int| 0 <= a < before.len() ==> out@[a] == before[a]);
        }
    }
    out
}

fn sort_part(keys: &Vec<SortRecord>, lo: usize, hi: usize) -> (r: Vec<usize>)
    requires
        lo <= hi <= keys@.len(),
    ensures
        is_sorted_part(keys_model(keys@), r@, lo as int, hi as int),
    decreases hi - lo,
{
    if hi - lo <= 1 {
        let mut out: Vec<usize> = Vec::new();
        if lo < hi {
            out.push(lo);
        }
        return out;
    }
    let mid: usize = lo + (hi - lo) / 2;
    let left = sort_part(keys, lo, mid);
    let right = sort_part(keys, mid, hi);
    merge(keys, &left, &right, lo, mid, hi)
}

/// The positions of items in the order of their keys; items with equal keys
/// keep their order.
pub fn stable_order(keys: &Vec<SortRecord>) -> (r: Vec<usize>)
    ensures
        is_stable_order(keys_model(keys@), r@),
{
    sort_part(keys, 0, keys.len())
}

/// Items rearranged by an order of their positions.
pub open spec fn arranged<T>(items: Seq<T>, order: Seq<usize>) -> Seq<T> {
    Seq::new(order.len(), |i: int| items[order[i] as int])
}

/// Rearranges items by a stable order of their keys.
pub fn arrange<T>(items: Vec<T>, keys: &Vec<SortRecord>, order: &Vec<usize>) -> (r: Vec<T>)
    requires
        items@.len() == keys@.len(),
        is_stable_order(keys_model(keys@), order@),
    ensures
        r@ == arranged(items@, order@),
{
    let ghost all = items@;
    let ghost model = keys_model(keys@);
    let mut slots: Vec<Option<T>> = Vec::new();
    for item in it: items.into_iter()
        invariant
            it.seq() == all,
            slots@.len() == it.index(),
            forall|k: int| 0 <= k < slots@.len() ==> #[trigger] slots@[k] == Some(all[k]),
    {
        slots.push(Some(item));
    }
    let mut out: Vec<T> = Vec::new();
    let mut i: usize = 0;
    while i < order.len()
        invariant
            i <= order@.len(),
            model == keys_model(keys@),
            all.len() == keys@.len(),
            is_stable_order(model, order@),
            slots@.len() == all.len(),
            out@ == arranged(all, order@).take(i as int),
            forall|k: int|
                i <= k < order@.len() ==> slots@[(#[trigger] order@[k]) as int] == Some(
                    all[order@[k] as int],
                ),
        decreases order@.len() - i,
    {
        let at: usize = order[i];
        let item = slots[at].take();
        match item {
            Some(item) => {
                out.push(item);
            },
            None => {},
        }
        proof {
            assert forall|k: int| i < k < order@.len() implies order@[k] != at by {
                lemma_key_total(model[at as int], model[at as int]);
                assert(goes_before(model, order@[i as int] as int, order@[k] as int));
            }
            assert(out@ =~= arranged(all, order@).take(i as int + 1));
        }
        i = i + 1;
    }
    proof {
        assert(out@ =~= arranged(all, order@));
    }
    out
}

/// Keys have one stable order: any two stable orders of them are the same.
pub proof fn stable_order_is_unique(keys: Seq<KeyModel>, a: Seq<usize>, b: Seq<usize>)
    requires
        is_stable_order(keys, a),
        is_stable_order(keys, b),
    ensures
        a == b,
{
    if a != b {
        let d = choose|d: int| 0 <= d < a.len() && a[d] != b[d] && (forall|k: int| 0 <= k < d ==> a[k] == b[k]);
        assert(exists|d: int| 0 <= d < a.len() && a[d] != b[d]) by {
            if forall|d: int| 0 <= d < a.len() ==> a[d] == b[d] {
                assert(a =~= b);
            }
        }
        lemma_first_difference(a, b);
        stable_order_is_complete(keys, b, a[d] as int);
        stable_order_is_complete(keys, a, b[d] as int);
        let i = choose|i: int| 0 <= i < b.len() && b[i] == a[d];
        let j = choose|j: int| 0 <= j < a.len() && a[j] == b[d];
        lemma_key_total(keys[a[d] as int], keys[b[d] as int]);
        lemma_key_total(keys[a[d] as int], keys[a[d] as int]);
        if i < d {
            assert(a[i] == a[d]);
            assert(goes_before(keys, a[i] as int, a[d] as int));
        }
        if j < d {
            assert(b[j] == b[d]);
            lemma_key_total(keys[b[d] as int], keys[b[d] as int]);
            assert(goes_before(keys, b[j] as int, b[d] as int));
        }
        assert(goes_before(keys, b[d] as int, b[i] as int));
        assert(goes_before(keys, a[d] as int, a[j] as int));
    }
}

proof fn lemma_first_difference(a: Seq<usize>, b: Seq<usize>)
    requires
        a.len() == b.len(),
        exists|d: int| 0 <= d < a.len() && a[d] != b[d],
    ensures
        exists|d: int|
            0 <= d < a.len() && a[d] != b[d] && (forall|k: int| 0 <= k < d ==> a[k] == b[k]),
    decreases a.len(),
{
    let d = choose|d: int| 0 <= d < a.len() && a[d] != b[d];
    if exists|e: int| 0 <= e < d && a[e] != b[e] {
        let e = choose|e: int| 0 <= e < d && a[e] != b[e];
        assert(a.take(d)[e] != b.take(d)[e]);
        lemma_first_difference(a.take(d), b.take(d));
        let f = choose|f: int|
            0 <= f < d && a.take(d)[f] != b.take(d)[f] && (forall|k: int|
                0 <= k < f ==> a.take(d)[k] == b.take(d)[k]);
        assert forall|k: int| 0 <= k < f implies a[k] == b[k] by {
            assert(a.take(d)[k] == b.take(d)[k]);
        }
        assert(a[f] != b[f]);
    }
}

/// A stable order leaves no item out.
pub proof fn stable_order_is_complete(keys: Seq<KeyModel>, order: Seq<usize>, i: int)
    requires
        is_stable_order(keys, order),
        0 <= i < keys.len(),
    ensures
        exists|k: int| 0 <= k < order.len() && order[k] == i,
{
    let positions = order.map_values(|p: usize| p as int);
    assert forall|x: int, y: int|
        0 <= x < positions.len() && 0 <= y < positions.len() && x != y implies positions[x]
        != positions[y] by {
        if x < y {
            assert(goes_before(keys, order[x] as int, order[y] as int));
            lemma_key_total(keys[order[x] as int], keys[order[x] as int]);
        } else {
            assert(goes_before(keys, order[y] as int, order[x] as int));
            lemma_key_total(keys[order[x] as int], keys[order[x] as int]);
        }
    }
    positions.unique_seq_to_set();
    let all = vstd::set_lib::set_int_range(0, keys.len() as int);
    vstd::set_lib::lemma_int_range(0, keys.len() as int);
    assert(positions.to_set().subset_of(all)) by {
        assert forall|p: int| positions.to_set().contains(p) implies all.contains(p) by {
            let k = choose|k: int| 0 <= k < positions.len() && positions[k] == p;
            assert(order[k] < keys.len());
        }
    }
    vstd::set_lib::lemma_subset_equality(positions.to_set(), all);
    assert(all.contains(i));
    assert(positions.to_set().contains(i));
    let k = choose|k: int| 0 <= k < positions.len() && positions[k] == i;
    assert(order[k] == i);
}

proof fn lemma_place(keys: Seq<KeyModel>, order: Seq<usize>, item: int) -> (place: int)
    ensures
        0 <= place <= order.len(),
        forall|i: int| 0 <= i < place ==> !goes_before(keys, item, (#[trigger] order[i]) as int),
        place < order.len() ==> goes_before(keys, item, order[place] as int),
    decreases order.len(),
{
    if order.len() == 0 {
        0
    } else {
        let place = lemma_place(keys, order.drop_last(), item);
        assert forall|i: int| 0 <= i < place implies !goes_before(
            keys,
            item,
            (#[trigger] order[i]) as int,
        ) by {
            assert(order[i] == order.drop_last()[i]);
        }
        if place < order.len() - 1 || goes_before(keys, item, order.last() as int) {
            place
        } else {
            place + 1
        }
    }
}

/// Whatever the keys, there is an order.
pub proof fn stable_order_exists(keys: Seq<KeyModel>) -> (order: Seq<usize>)
    requires
        keys.len() <= usize::MAX,
    ensures
        is_stable_order(keys, order),
    decreases keys.len(),
{
    if keys.len() == 0 {
        Seq::empty()
    } else {
        let before = stable_order_exists(keys.drop_last());
        let item = keys.len() - 1;
        let place = lemma_place(keys, before, item);
        let order = before.insert(place, item as usize);
        assert forall|i: int| 0 <= i < before.len() implies (#[trigger] before[i]) < item && (
        if i < place {
            goes_before(keys, before[i] as int, item)
        } else {
            goes_before(keys, item, before[i] as int)
        }) by {
            lemma_key_total(keys[before[i] as int], keys[item]);
            if i > place {
                assert(goes_before(keys.drop_last(), before[place] as int, before[i] as int));
                lemma_goes_transitive(keys, item, before[place] as int, before[i] as int);
            }
        }
        assert forall|i: int, j: int| 0 <= i < j < order.len() implies goes_before(
            keys,
            #[trigger] order[i] as int,
            #[trigger] order[j] as int,
        ) by {
            let a = if i < place {
                i
            } else {
                i - 1
            };
            let b = if j < place {
                j
            } else {
                j - 1
            };
            if i != place && j != place {
                assert(order[i] == before[a] && order[j] == before[b]);
                assert(goes_before(keys.drop_last(), before[a] as int, before[b] as int));
            } else if i == place {
                assert(order[j] == before[b]);
            } else {
                assert(order[i] == before[a]);
            }
        }
        order
    }
}

/// Texts are ordered by their first difference: the one with the lower character
/// there stands first, and a text stands before every longer one that begins
/// with it.
pub proof fn the_first_difference_decides(
    same: Seq<char>,
    x: char,
    y: char,
    a: Seq<char>,
    b: Seq<char>,
)
    ensures
        x < y ==> text_before(same.push(x) + a, same.push(y) + b),
        text_before(same, same.push(x) + a),
        !text_before(same, same),
    decreases same.len(),
{
    let left = same.push(x) + a;
    let right = same.push(y) + b;
    if same.len() > 0 {
        the_first_difference_decides(same.skip(1), x, y, a, b);
        assert(left.skip(1) =~= same.skip(1).push(x) + a);
        assert(right.skip(1) =~= same.skip(1).push(y) + b);
        assert(left[0] == same[0] && right[0] == same[0]);
    } else {
        assert(left[0] == x && right[0] == y);
    }
}

/// In a stable order nothing stands behind what it should stand before, and of
/// items with equal keys the one that came first stays first.
pub proof fn stable_orders_keep_ties(keys: Seq<KeyModel>, order: Seq<usize>, i: int, j: int)
    requires
        is_stable_order(keys, order),
        0 <= i < j < order.len(),
    ensures
        keys[order[i] as int].primary <= keys[order[j] as int].primary,
        keys[order[i] as int] == keys[order[j] as int] ==> order[i] < order[j],
        !key_before(keys[order[j] as int], keys[order[i] as int]),
{
    let a = order[i] as int;
    let b = order[j] as int;
    assert(goes_before(keys, a, b));
    lemma_key_total(keys[a], keys[b]);
}

/// Rearranging puts in each place the item whose position the order names
/// there.
pub proof fn items_follow_the_order<T>(items: Seq<T>, order: Seq<usize>, i: int)
    requires
        0 <= i < order.len(),
    ensures
        arranged(items, order).len() == order.len(),
        arranged(items, order)[i] == items[order[i] as int],
{
}

} // verus!
