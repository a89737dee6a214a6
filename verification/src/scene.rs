//! What the picture of the network is made of, apart from coordinates and
//! colors: which connections are drawn, which output is the prediction, and
//! the text of the labels.
use vstd::prelude::*;
use crate::text::{
    character_label, character_label_text, dec_numeral, dec_value, lemma_dec_numeral_value, push_char,
    push_decimal,
};

verus! {

/// The connections into neuron `to` from the first `count` sources, as
/// `(from, to)` pairs in increasing `from`.
pub open spec fn connection_row(to: int, count: int) -> Seq<(usize, usize)> {
    Seq::new(count as nat, |from: int| (from as usize, to as usize))
}

/// The connections drawn into a layer whose neuron `to` holds
/// `weight_counts[to]` weights and which reads `source_count` sources:
/// neuron after neuron, one per weight but never more than there are
/// sources.
pub open spec fn connection_pairs_spec(weight_counts: Seq<usize>, source_count: int) -> Seq<
    (usize, usize),
>
    decreases weight_counts.len(),
{
    if weight_counts.len() == 0 {
        seq![]
    } else {
        let to = weight_counts.len() - 1;
        let count = if weight_counts[to] < source_count {
            weight_counts[to] as int
        } else {
            source_count
        };
        connection_pairs_spec(weight_counts.drop_last(), source_count) + connection_row(to, count)
    }
}

/// The connections drawn into one layer (see `connection_pairs_spec`).
pub fn connection_pairs(weight_counts: &[usize], source_count: usize) -> (pairs: Vec<(usize, usize)>)
    ensures
        pairs@ == connection_pairs_spec(weight_counts@, source_count as int),
{
    let mut pairs: Vec<(usize, usize)> = Vec::new();
    let mut to: usize = 0;
    while to < weight_counts.len()
        invariant
            to <= weight_counts@.len(),
            pairs@ == connection_pairs_spec(weight_counts@.subrange(0, to as int), source_count as int),
        decreases weight_counts@.len() - to,
    {
        let count: usize = if weight_counts[to] < source_count {
            weight_counts[to]
        } else {
            source_count
        };
        let ghost before = pairs@;
        let mut from: usize = 0;
        while from < count
            invariant
                from <= count,
                pairs@ == before + connection_row(to as int, from as int),
            decreases count - from,
        {
            pairs.push((from, to));
            from = from + 1;
            assert(pairs@ =~= before + connection_row(to as int, from as int));
        }
        proof {
            let next = weight_counts@.subrange(0, to + 1);
            assert(next.drop_last() =~= weight_counts@.subrange(0, to as int));
            assert(next[to as int] == weight_counts@[to as int]);
        }
        to = to + 1;
    }
    assert(weight_counts@.subrange(0, weight_counts@.len() as int) =~= weight_counts@);
    pairs
}

/// Every drawn connection joins an existing source to an existing neuron,
/// through one of that neuron's weights.
pub proof fn lemma_connections_join_existing_ends(weight_counts: Seq<usize>, source_count: int)
    requires
        weight_counts.len() <= usize::MAX,
        0 <= source_count,
    ensures
        forall|i: int|
            0 <= i < connection_pairs_spec(weight_counts, source_count).len() ==> {
                let (from, to) = #[trigger] connection_pairs_spec(weight_counts, source_count)[i];
                &&& (to as int) < weight_counts.len()
                &&& (from as int) < source_count
                &&& from < weight_counts[to as int]
            },
    decreases weight_counts.len(),
{
    if weight_counts.len() > 0 {
        lemma_connections_join_existing_ends(weight_counts.drop_last(), source_count);
        let to = weight_counts.len() - 1;
        let count = if weight_counts[to] < source_count {
            weight_counts[to] as int
        } else {
            source_count
        };
        let front = connection_pairs_spec(weight_counts.drop_last(), source_count);
        let all = connection_pairs_spec(weight_counts, source_count);
        assert forall|i: int| 0 <= i < all.len() implies {
            let (from, to) = #[trigger] all[i];
            &&& (to as int) < weight_counts.len()
            &&& (from as int) < source_count
            &&& from < weight_counts[to as int]
        } by {
            if i < front.len() {
                assert(all[i] == front[i]);
                let t = front[i].1;
                assert(weight_counts.drop_last()[t as int] == weight_counts[t as int]);
            } else {
                let k = i - front.len();
                assert(0 <= k < count);
                assert(all[i] == connection_row(to, count)[k]);
                assert(connection_row(to, count)[k] == (k as usize, to as usize));
            }
        }
    }
}

/// Every weight of every neuron that has a source to read gets its
/// connection: for each neuron `to` and each `from` below both its weight
/// count and the source count, `(from, to)` is drawn.
pub proof fn lemma_connections_are_complete(weight_counts: Seq<usize>, source_count: int)
    requires
        weight_counts.len() <= usize::MAX,
        0 <= source_count,
    ensures
        forall|to: int, from: int|
            0 <= to < weight_counts.len() && 0 <= from < weight_counts[to] && from < source_count
                ==> #[trigger] connection_pairs_spec(weight_counts, source_count).contains(
                (from as usize, to as usize),
            ),
    decreases weight_counts.len(),
{
    if weight_counts.len() > 0 {
        let front_counts = weight_counts.drop_last();
        lemma_connections_are_complete(front_counts, source_count);
        let last = weight_counts.len() - 1;
        let count = if weight_counts[last] < source_count {
            weight_counts[last] as int
        } else {
            source_count
        };
        let front = connection_pairs_spec(front_counts, source_count);
        let row = connection_row(last, count);
        let all = connection_pairs_spec(weight_counts, source_count);
        assert(all == front + row);
        assert forall|to: int, from: int|
            0 <= to < weight_counts.len() && 0 <= from < weight_counts[to] && from
                < source_count implies #[trigger] all.contains((from as usize, to as usize)) by {
            if to < last {
                assert(front_counts[to] == weight_counts[to]);
                assert(front.contains((from as usize, to as usize)));
                let k = choose|k: int| 0 <= k < front.len() && front[k] == (from as usize, to as usize);
                assert(all[k] == front[k]);
            } else {
                assert(row[from] == (from as usize, to as usize));
                assert(all[front.len() + from] == row[from]);
            }
        }
    }
}

/// No connection is drawn twice.
pub proof fn lemma_connections_are_distinct(weight_counts: Seq<usize>, source_count: int)
    requires
        weight_counts.len() <= usize::MAX,
        0 <= source_count,
    ensures
        connection_pairs_spec(weight_counts, source_count).no_duplicates(),
    decreases weight_counts.len(),
{
    if weight_counts.len() > 0 {
        let front_counts = weight_counts.drop_last();
        lemma_connections_are_distinct(front_counts, source_count);
        lemma_connections_join_existing_ends(front_counts, source_count);
        let last = weight_counts.len() - 1;
        let count = if weight_counts[last] < source_count {
            weight_counts[last] as int
        } else {
            source_count
        };
        let front = connection_pairs_spec(front_counts, source_count);
        let row = connection_row(last, count);
        let all = connection_pairs_spec(weight_counts, source_count);
        assert(all == front + row);
        assert forall|i: int, j: int| 0 <= i < all.len() && 0 <= j < all.len() && i != j implies all[i]
            != all[j] by {
            if i >= front.len() && j >= front.len() {
                assert(all[i] == row[i - front.len()]);
                assert(all[j] == row[j - front.len()]);
            } else if i < front.len() && j < front.len() {
                assert(all[i] == front[i]);
                assert(all[j] == front[j]);
            } else if i < front.len() {
                assert(all[i] == front[i]);
                assert(all[j] == row[j - front.len()]);
                assert((front[i].1 as int) < front_counts.len());
            } else {
                assert(all[j] == front[j]);
                assert(all[i] == row[i - front.len()]);
                assert((front[j].1 as int) < front_counts.len());
            }
        }
    }
}

/// The integer by which `f32::total_cmp` orders the float whose bit pattern
/// is `bits`: a positive float's bits as they are, a negative float's bits
/// reversed below zero (std computes `i ^ (((i >> 31) as u32) >> 1) as i32`
/// for `i = bits as i32`).
pub open spec fn total_order_key_spec(bits: u32) -> int {
    if bits < 0x8000_0000 {
        bits as int
    } else {
        0x7FFF_FFFF - bits
    }
}

/// The key of `total_order_key_spec`, so that floats compare by
/// `f32::total_cmp` exactly when their keys compare by `<`.
pub fn total_order_key(bits: u32) -> (key: i32)
    ensures
        key == total_order_key_spec(bits),
{
    if bits < 0x8000_0000 {
        bits as i32
    } else {
        (0x7FFF_FFFFi64 - bits as i64) as i32
    }
}

/// Keys order floats as `f32::total_cmp` documents: distinct bit patterns
/// get distinct keys; every float with the sign bit clear comes after every
/// float with it set; with the sign bit clear a greater bit pattern is
/// greater, with it set a greater bit pattern is smaller.
pub proof fn lemma_total_order_key_order(a: u32, b: u32)
    ensures
        a != b ==> total_order_key_spec(a) != total_order_key_spec(b),
        a < 0x8000_0000 ==> total_order_key_spec(a) >= 0,
        a >= 0x8000_0000 ==> total_order_key_spec(a) < 0,
        a < b < 0x8000_0000 ==> total_order_key_spec(a) < total_order_key_spec(b),
        0x8000_0000 <= a < b ==> total_order_key_spec(a) > total_order_key_spec(b),
{
}

/// The index of the greatest key, the last one where several are greatest
/// (as `Iterator::max_by` picks); `None` when there is no key.
pub fn last_max_index(keys: &[i32]) -> (index: Option<usize>)
    ensures
        index is None <==> keys@.len() == 0,
        index matches Some(i) ==> {
            &&& i < keys@.len()
            &&& forall|j: int| 0 <= j < keys@.len() ==> keys@[j] <= keys@[i as int]
            &&& forall|j: int| i < j < keys@.len() ==> keys@[j] < keys@[i as int]
        },
{
    if keys.len() == 0 {
        return None;
    }
    let mut best: usize = 0;
    let mut j: usize = 1;
    while j < keys.len()
        invariant
            1 <= j <= keys@.len(),
            best < j,
            forall|k: int| 0 <= k < j ==> keys@[k] <= keys@[best as int],
            forall|k: int| best < k < j ==> keys@[k] < keys@[best as int],
        decreases keys@.len() - j,
    {
        if keys[j] >= keys[best] {
            best = j;
        }
        j = j + 1;
    }
    Some(best)
}

/// The text of the label of input or output `index`: the name of its
/// character when there is one, else `fallback_prefix` and the index.
pub open spec fn label_text(character_labels: Seq<char>, index: int, fallback_prefix: char) -> Seq<
    char,
> {
    if 0 <= index < character_labels.len() {
        character_label_text(character_labels[index])
    } else {
        seq![fallback_prefix] + dec_numeral(index as nat)
    }
}

/// The label of input or output `index` (see `label_text`).
pub fn label_for(character_labels: &[char], index: usize, fallback_prefix: char) -> (label: String)
    ensures
        label@ == label_text(character_labels@, index as int, fallback_prefix),
{
    if index < character_labels.len() {
        character_label(character_labels[index])
    } else {
        let mut label = String::new();
        push_char(&mut label, fallback_prefix);
        push_decimal(&mut label, index);
        assert(label@ =~= seq![fallback_prefix] + dec_numeral(index as nat));
        label
    }
}

/// A label is the name of the character at its index when there is one;
/// otherwise it is the fallback prefix followed by a decimal numeral that
/// reads back as the index.
pub proof fn lemma_label_names_its_index(character_labels: Seq<char>, index: int, prefix: char)
    requires
        0 <= index,
    ensures
        index < character_labels.len() ==> label_text(character_labels, index, prefix)
            == character_label_text(character_labels[index]),
        index >= character_labels.len() ==> {
            let label = label_text(character_labels, index, prefix);
            &&& label.len() >= 2
            &&& label[0] == prefix
            &&& dec_value(label.subrange(1, label.len() as int)) == index
        },
{
    if index >= character_labels.len() {
        lemma_dec_numeral_value(index as nat);
        let label = label_text(character_labels, index, prefix);
        assert(label.subrange(1, label.len() as int) =~= dec_numeral(index as nat));
    }
}

/// `Predicted: ` and the label of output `index`.
pub open spec fn prediction_text_spec(character_labels: Seq<char>, index: int) -> Seq<char> {
    seq!['P', 'r', 'e', 'd', 'i', 'c', 't', 'e', 'd', ':', ' '] + label_text(
        character_labels,
        index,
        'y',
    )
}

/// The summary shown above the output layer for the predicted output `index`.
pub fn prediction_text(character_labels: &[char], index: usize) -> (text: String)
    ensures
        text@ == prediction_text_spec(character_labels@, index as int),
{
    let mut text = String::from_str("Predicted: ");
    proof {
        reveal_strlit("Predicted: ");
        assert(text@ =~= seq!['P', 'r', 'e', 'd', 'i', 'c', 't', 'e', 'd', ':', ' ']);
    }
    let label = label_for(character_labels, index, 'y');
    text.append(label.as_str());
    text
}

} // verus!
