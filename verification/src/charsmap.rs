//! Compiled rewriting rules of a normalizer: a table in one piece of bytes, and
//! whether each walk through it stays inside.
//!
//! The first four bytes are the size of the nodes, four bytes each; the text of
//! the replacements comes behind the nodes. A walk begins at the first node and
//! follows the bytes of a text: a node leads to a place, and the place with the
//! next byte mixed in is the next node, if that node bears the byte as its
//! label. Where a node has a replacement, the node at the place that it leads
//! to says where in the text the replacement begins.
use vstd::prelude::*;

verus! {

/// The number in the four bytes at `at`, the least significant first.
pub open spec fn word_at(bytes: Seq<u8>, at: int) -> int {
    bytes[at] + 256 * bytes[at + 1] + 65536 * bytes[at + 2] + 16777216 * bytes[at + 3]
}

/// The number of nodes that a table claims to have.
pub open spec fn node_count(bytes: Seq<u8>) -> int {
    word_at(bytes, 0) / 4
}

/// The `i`th node.
pub open spec fn node_at(bytes: Seq<u8>, i: int) -> int {
    word_at(bytes, 4 + 4 * i)
}

/// How far a node leads from its own position: the upper bits, times 256 where
/// the ninth bit is set.
pub open spec fn offset_of(node: int) -> int {
    node / 1024 * if node / 512 % 2 == 1 {
        256int
    } else {
        1int
    }
}

/// Whether a node bears a byte as its label: the byte is in the lowest bits,
/// and the highest bit is not set.
pub open spec fn bears(node: int, label: int) -> bool {
    node < 0x8000_0000 && node % 256 == label
}

/// Whether a node has a replacement.
pub open spec fn has_replacement(node: int) -> bool {
    node / 256 % 2 == 1
}

/// Where a replacement begins in the text, as a node says it.
pub open spec fn beginning(node: int) -> int {
    node % 0x8000_0000
}

/// The place that the `i`th node leads to.
pub open spec fn place_of(bytes: Seq<u8>, i: int) -> int {
    (i as u64 ^ offset_of(node_at(bytes, i)) as u64) as int
}

/// There are nodes for each byte that may be mixed into a place.
pub open spec fn is_inside(bytes: Seq<u8>, place: int) -> bool {
    place / 256 * 256 + 255 < node_count(bytes)
}

/// A character of the replacements' text begins at `at`, or the text ends there.
pub open spec fn begins_character(bytes: Seq<u8>, at: int) -> bool {
    let from: int = 4 + 4 * node_count(bytes) + at;
    from == bytes.len() || from < bytes.len() && !(128 <= bytes[from] < 192)
}

/// The `i`th node leads to a place inside, and its replacement, if it has one,
/// begins inside the text.
pub open spec fn node_fits(bytes: Seq<u8>, i: int) -> bool {
    let place: int = place_of(bytes, i);
    &&& is_inside(bytes, place)
    &&& has_replacement(node_at(bytes, i)) ==> begins_character(
        bytes,
        beginning(node_at(bytes, place)),
    )
}

/// A table that can be walked along any text: its nodes are all there, and the
/// first one and each that bears a label fit.
pub open spec fn is_whole(bytes: Seq<u8>) -> bool {
    &&& bytes.len() >= 4
    &&& 4 + 4 * node_count(bytes) <= bytes.len()
    &&& 0 < node_count(bytes)
    &&& is_inside(bytes, place_of(bytes, 0))
    &&& forall|i: int|
        0 <= i < node_count(bytes) && node_at(bytes, i) < 0x8000_0000 && node_at(bytes, i) % 256
            != 0 ==> #[trigger] node_fits(bytes, i)
}

/// The node that a byte leads to from a place.
pub open spec fn next_node(place: int, byte: u8) -> int {
    (place as u64 ^ byte as u64) as int
}

/// The place where a walk along a text's bytes stands, if it gets that far.
pub open spec fn walk(bytes: Seq<u8>, text: Seq<u8>) -> Option<int>
    decreases text.len(),
{
    if text.len() == 0 {
        Some(place_of(bytes, 0))
    } else {
        match walk(bytes, text.drop_last()) {
            None => None,
            Some(place) => {
                let i: int = next_node(place, text.last());
                if bears(node_at(bytes, i), text.last() as int) {
                    Some(place_of(bytes, i))
                } else {
                    None
                }
            },
        }
    }
}

fn read_word(bytes: &Vec<u8>, at: usize) -> (r: u64)
    requires
        at + 4 <= bytes.len(),
    ensures
        r == word_at(bytes@, at as int),
        r < 0x1_0000_0000,
{
    bytes[at] as u64 + 256 * (bytes[at + 1] as u64) + 65536 * (bytes[at + 2] as u64) + 16777216 * (
    bytes[at + 3] as u64)
}

fn read_place(bytes: &Vec<u8>, i: usize) -> (r: u64)
    requires
        4 + 4 * i + 4 <= bytes.len(),
    ensures
        r == place_of(bytes@, i as int),
{
    let node: u64 = read_word(bytes, 4 + 4 * i);
    let scale: u64 = if node / 512 % 2 == 1 {
        256
    } else {
        1
    };
    let far: u64 = node / 1024 * scale;
    (i as u64) ^ far
}

/// Whether a table can be walked along any text.
pub fn can_be_walked(bytes: &Vec<u8>) -> (r: bool)
    ensures
        r == is_whole(bytes@),
{
    if bytes.len() < 4 {
        return false;
    }
    let count: u64 = read_word(bytes, 0) / 4;
    if count == 0 || count > (bytes.len() as u64 - 4) / 4 {
        return false;
    }
    let n: usize = count as usize;
    if read_place(bytes, 0) / 256 * 256 + 255 >= count {
        return false;
    }
    let mut i: usize = 0;
    while i < n
        invariant
            i <= n,
            n == count,
            count == node_count(bytes@),
            0 < count,
            4 + 4 * count <= bytes.len(),
            forall|j: int|
                0 <= j < i && node_at(bytes@, j) < 0x8000_0000 && node_at(bytes@, j) % 256 != 0
                    ==> #[trigger] node_fits(bytes@, j),
        decreases n - i,
    {
        let node: u64 = read_word(bytes, 4 + 4 * i);
        if node < 0x8000_0000 && node % 256 != 0 {
            let place: u64 = read_place(bytes, i);
            if place / 256 * 256 + 255 >= count {
                assert(!node_fits(bytes@, i as int));
                return false;
            }
            if node / 256 % 2 == 1 {
                let at: u64 = read_word(bytes, 4 + 4 * (place as usize)) % 0x8000_0000;
                let room: u64 = bytes.len() as u64 - (4 + 4 * count);
                if at > room || at < room && {
                    let b: u8 = bytes[4 + 4 * n + at as usize];
                    128 <= b && b < 192
                } {
                    assert(!node_fits(bytes@, i as int));
                    return false;
                }
            }
            assert(node_fits(bytes@, i as int));
        }
        i = i + 1;
    }
    true
}

proof fn lemma_mixed_in(place: u64, byte: u64)
    requires
        byte < 256,
    ensures
        (place ^ byte) / 256 == place / 256,
{
    assert((place ^ byte) / 256 == place / 256) by (bit_vector)
        requires
            byte < 256,
    ;
}

/// A walk through a whole table stays inside, whichever text it follows: the
/// next node is there for each byte, and where the walk comes by a replacement,
/// the replacement begins inside the text.
pub proof fn law_walk_stays_inside(bytes: Seq<u8>, text: Seq<u8>)
    requires
        is_whole(bytes),
        !text.contains(0),
    ensures
        walk(bytes, text) matches Some(place) ==> {
            &&& 0 <= place < node_count(bytes)
            &&& forall|b: u8| 0 <= #[trigger] next_node(place, b) < node_count(bytes)
            &&& text.len() > 0 ==> {
                let i: int = next_node(walk(bytes, text.drop_last())->Some_0, text.last());
                has_replacement(node_at(bytes, i)) ==> begins_character(
                    bytes,
                    beginning(node_at(bytes, place)),
                )
            }
        },
    decreases text.len(),
{
    if let Some(place) = walk(bytes, text) {
        if text.len() > 0 {
            let before: int = walk(bytes, text.drop_last())->Some_0;
            assert(!text.drop_last().contains(0)) by {
                assert forall|k: int| 0 <= k < text.len() - 1 implies text.drop_last()[k] != 0 by {
                    assert(text.contains(text[k]));
                }
            }
            law_walk_stays_inside(bytes, text.drop_last());
            assert(text.contains(text.last()));
            assert(node_fits(bytes, next_node(before, text.last())));
        }
        assert forall|b: u8| 0 <= #[trigger] next_node(place, b) < node_count(bytes) by {
            lemma_mixed_in(place as u64, b as u64);
        }
    }
}

/// The fields of a node, as bits: the upper 22 are the distance, shifted by
/// eight where bit nine is set; bit eight tells of a replacement; the lowest
/// eight, with the highest one, are the label; and the lower 31 are a beginning.
pub proof fn law_fields_of_a_node(node: u64, label: u64)
    requires
        node < 0x1_0000_0000,
        label < 256,
    ensures
        offset_of(node as int) == (node >> 10u64) << ((node & 0x200u64) >> 6u64),
        has_replacement(node as int) <==> (node >> 8u64) & 1u64 == 1u64,
        bears(node as int, label as int) <==> node & 0x8000_00ffu64 == label,
        beginning(node as int) == node & 0x7fff_ffffu64,
{
    assert(node / 512 % 2 == 1 ==> node / 1024 * 256 == (node >> 10u64) << ((node & 0x200u64)
        >> 6u64)) by (bit_vector)
        requires
            node < 0x1_0000_0000u64,
    ;
    assert(node / 512 % 2 != 1 ==> node / 1024 == (node >> 10u64) << ((node & 0x200u64) >> 6u64))
        by (bit_vector)
        requires
            node < 0x1_0000_0000u64,
    ;
    assert(node / 256 % 2 == 1 <==> (node >> 8u64) & 1u64 == 1u64) by (bit_vector);
    assert((node < 0x8000_0000u64 && node % 256 == label) <==> node & 0x8000_00ffu64 == label)
        by (bit_vector)
        requires
            node < 0x1_0000_0000u64,
            label < 256,
    ;
    assert(node % 0x8000_0000u64 == node & 0x7fff_ffffu64) by (bit_vector);
}

/// The words of a table are four bytes each, the least significant first: the
/// size of the nodes, then the nodes one by one.
pub proof fn law_words_of_a_table(bytes: Seq<u8>, i: int)
    requires
        bytes.len() >= 4,
        i >= 0,
        8 + 4 * i <= bytes.len(),
    ensures
        node_at(bytes, i) == bytes[4 + 4 * i] + 256 * (bytes[5 + 4 * i] + 256 * (bytes[6 + 4 * i]
            + 256 * bytes[7 + 4 * i])),
        4 * node_count(bytes) <= bytes[0] + 256 * (bytes[1] + 256 * (bytes[2] + 256 * bytes[3])) < 4
            * node_count(bytes) + 4,
{
}

/// A table is whole exactly where its nodes are there, the first one leads to a
/// block of 256 that is there, and so does every node that bears a label, with
/// a replacement, if it has one, that begins at a character of the text or at
/// its end.
pub proof fn law_whole_tables(bytes: Seq<u8>, i: int)
    requires
        bytes.len() >= 4,
        0 <= i < node_count(bytes),
        4 + 4 * node_count(bytes) <= bytes.len(),
    ensures
        ({
            let node: int = node_at(bytes, i);
            let place: int = (i as u64 ^ offset_of(node) as u64) as int;
            let count: int = node_count(bytes);
            let from: int = 4 + 4 * count + beginning(node_at(bytes, place));
            let fits: bool = place / 256 * 256 + 255 < count && (has_replacement(node) ==> from
                == bytes.len() || from < bytes.len() && !(128 <= bytes[from] <= 191));
            &&& node_fits(bytes, i) <==> fits
            &&& is_whole(bytes) && node < 0x8000_0000 && node % 256 != 0 ==> fits
            &&& is_whole(bytes) ==> (0u64 ^ offset_of(node_at(bytes, 0)) as u64) as int / 256 * 256
                + 255 < count
        }),
        (0u64 ^ offset_of(node_at(bytes, 0)) as u64) as int / 256 * 256 + 255 < node_count(bytes)
            && (forall|k: int|
            0 <= k < node_count(bytes) ==> #[trigger] node_fits(bytes, k)) ==> is_whole(bytes),
{
    let place: int = place_of(bytes, i);
    let from: int = 4 + 4 * node_count(bytes) + beginning(node_at(bytes, place));
    assert(begins_character(bytes, beginning(node_at(bytes, place))) <==> from == bytes.len()
        || from < bytes.len() && !(128 <= bytes[from] <= 191));
    if is_whole(bytes) && node_at(bytes, i) < 0x8000_0000 && node_at(bytes, i) % 256 != 0 {
        assert(node_fits(bytes, i));
    }
}

/// A walk goes on byte by byte: it is at the place of the node that the last
/// byte led to, and ends where that node does not bear the byte.
pub proof fn law_walk_goes_on(bytes: Seq<u8>, text: Seq<u8>, b: u8)
    ensures
        walk(bytes, Seq::empty()) == Some(place_of(bytes, 0)),
        walk(bytes, text) is None ==> walk(bytes, text.push(b)) is None,
        walk(bytes, text) matches Some(place) ==> ({
            let i: int = (place as u64 ^ b as u64) as int;
            &&& bears(node_at(bytes, i), b as int) ==> walk(bytes, text.push(b)) == Some(
                place_of(bytes, i),
            )
            &&& !bears(node_at(bytes, i), b as int) ==> walk(bytes, text.push(b)) is None
        }),
{
    assert(text.push(b).drop_last() =~= text);
}

} // verus!
