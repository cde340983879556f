//! Blake2s hashes and the words that the kernels see of them.
//!
//! A hash is 32 bytes. On the GPU it is eight 32-bit words, each of them made of four bytes, the
//! least significant one first.
use vstd::prelude::*;

verus! {

/// A Blake2s hash.
#[derive(Clone, Copy, Debug, PartialEq, Eq)]
pub struct Blake2sHash(pub [u8; 32]);

/// The word that four bytes from an index on stand for, the least significant one first.
pub open spec fn word_at(bytes: Seq<u8>, i: int) -> u32 {
    (bytes[i] + 256 * bytes[i + 1] + 65536 * bytes[i + 2] + 16777216 * bytes[i + 3]) as u32
}

/// The eight words of a hash.
pub open spec fn hash_words(hash: Blake2sHash) -> Seq<u32> {
    Seq::new(8, |j: int| word_at(hash.0@, 4 * j))
}

/// The words of a layer of hashes, eight for each.
pub open spec fn layer_words(hashes: Seq<Blake2sHash>) -> Seq<u32> {
    Seq::new(8 * hashes.len(), |i: int| hash_words(hashes[i / 8])[i % 8])
}

/// Calls `bytemuck::cast_ref`, which reinterprets the bytes of a value as another type of the
/// same size. The result holds the bytes four at a time, in their order. Both types are arrays
/// of bytes, so neither size nor alignment can make the call fail.
#[verifier::external_body]
fn bytes_by_word(bytes: &[u8; 32]) -> (r: &[[u8; 4]; 8])
    ensures
        forall|j: int, k: int|
            0 <= j < 8 && 0 <= k < 4 ==> #[trigger] r@[j]@[k] == bytes@[4 * j + k],
{
    bytemuck::cast_ref(bytes)
}

/// Calls `bytemuck::cast`, which reinterprets the bytes of a value as another type of the same
/// size. The result holds the bytes of the words one after the other.
#[verifier::external_body]
fn bytes_of_words(words: [[u8; 4]; 8]) -> (r: [u8; 32])
    ensures
        forall|j: int, k: int|
            0 <= j < 8 && 0 <= k < 4 ==> r@[4 * j + k] == #[trigger] words@[j]@[k],
{
    bytemuck::cast(words)
}

/// The word of four bytes.
fn word_of(bytes: &[u8; 4]) -> (w: u32)
    ensures
        w == word_at(bytes@, 0),
{
    bytes[0] as u32 + 256 * (bytes[1] as u32) + 65536 * (bytes[2] as u32) + 16777216 * (
    bytes[3] as u32)
}

/// The four bytes of a word.
fn bytes_of(word: u32) -> (b: [u8; 4])
    ensures
        word_at(b@, 0) == word,
{
    [
        (word % 256) as u8,
        (word / 256 % 256) as u8,
        (word / 65536 % 256) as u8,
        (word / 16777216) as u8,
    ]
}

/// A word determines its four bytes.
proof fn lemma_word_injective(a: Seq<u8>, i: int, b: Seq<u8>, j: int)
    requires
        0 <= i <= a.len() - 4,
        0 <= j <= b.len() - 4,
        word_at(a, i) == word_at(b, j),
    ensures
        a[i] == b[j],
        a[i + 1] == b[j + 1],
        a[i + 2] == b[j + 2],
        a[i + 3] == b[j + 3],
{
}

/// Two hashes with the same words are the same hash.
pub proof fn law_hash_words_injective(a: Blake2sHash, b: Blake2sHash)
    requires
        hash_words(a) == hash_words(b),
    ensures
        a == b,
{
    assert forall|i: int| 0 <= i < 32 implies a.0@[i] == b.0@[i] by {
        let j = i / 4;
        assert(hash_words(a)[j] == word_at(a.0@, 4 * j));
        assert(hash_words(b)[j] == word_at(b.0@, 4 * j));
        lemma_word_injective(a.0@, 4 * j, b.0@, 4 * j);
        assert(i == 4 * j + i % 4);
    }
    assert(a.0@ == b.0@);
    assert(a.0 =~= b.0);
}

/// Two layers with as many hashes and the same words are the same layer.
pub proof fn law_layer_words_injective(a: Seq<Blake2sHash>, b: Seq<Blake2sHash>)
    requires
        layer_words(a) == layer_words(b),
    ensures
        a == b,
{
    assert(layer_words(a).len() == 8 * a.len());
    assert(layer_words(b).len() == 8 * b.len());
    assert forall|i: int| 0 <= i < a.len() implies a[i] == b[i] by {
        assert forall|j: int| 0 <= j < 8 implies hash_words(a[i])[j] == hash_words(b[i])[j] by {
            let k = 8 * i + j;
            assert(k / 8 == i && k % 8 == j);
            assert(layer_words(a)[k] == hash_words(a[i])[j]);
            assert(layer_words(b)[k] == hash_words(b[i])[j]);
        }
        assert(hash_words(a[i]) == hash_words(b[i]));
        law_hash_words_injective(a[i], b[i]);
    }
    assert(a == b);
}

/// The words of a layer of hashes, eight for each.
pub fn flatten_hashes(hashes: &[Blake2sHash]) -> (words: Vec<u32>)
    ensures
        words@ == layer_words(hashes@),
{
    let mut words: Vec<u32> = Vec::new();
    let mut i: usize = 0;
    while i < hashes.len()
        invariant
            i <= hashes@.len(),
            words@ == layer_words(hashes@.take(i as int)),
        decreases hashes@.len() - i,
    {
        let ghost before = words@;
        let groups: &[[u8; 4]; 8] = bytes_by_word(&hashes[i].0);
        let mut j: usize = 0;
        while j < 8
            invariant
                j <= 8,
                i < hashes@.len(),
                forall|j: int, k: int|
                    0 <= j < 8 && 0 <= k < 4 ==> #[trigger] groups@[j]@[k]
                        == hashes@[i as int].0@[4 * j + k],
                words@ == before + hash_words(hashes@[i as int]).take(j as int),
            decreases 8 - j,
        {
            let w: u32 = word_of(&groups[j]);
            words.push(w);
            assert(w == hash_words(hashes@[i as int])[j as int]) by {
                let g = groups@[j as int]@;
                let h = hashes@[i as int].0@;
                assert(g[0] == h[4 * j + 0]);
                assert(g[1] == h[4 * j + 1]);
                assert(g[2] == h[4 * j + 2]);
                assert(g[3] == h[4 * j + 3]);
            }
            j = j + 1;
            assert(words@ == before + hash_words(hashes@[i as int]).take(j as int));
        }
        i = i + 1;
        proof {
            let now = layer_words(hashes@.take(i as int));
            let h = hash_words(hashes@[i - 1]);
            assert(h.take(8) == h);
            assert forall|k: int| 0 <= k < 8 * i implies words@[k] == now[k] by {
                if k < 8 * (i - 1) {
                    assert(before[k] == layer_words(hashes@.take(i - 1))[k]);
                } else {
                    assert(k / 8 == i - 1 && k % 8 == k - 8 * (i - 1));
                }
            }
            assert(words@ == now);
        }
    }
    assert(hashes@.take(i as int) == hashes@);
    words
}

/// The hashes that the first `8 * len` words stand for.
pub fn unflatten_hashes(words: &[u32], len: usize) -> (hashes: Vec<Blake2sHash>)
    requires
        8 * len <= words@.len(),
    ensures
        hashes@.len() == len,
        layer_words(hashes@) == words@.take(8 * len as int),
{
    let mut hashes: Vec<Blake2sHash> = Vec::with_capacity(len);
    let mut i: usize = 0;
    while i < len
        invariant
            i <= len,
            8 * len <= words.len(),
            hashes@.len() == i,
            layer_words(hashes@) == words@.take(8 * i as int),
        decreases len - i,
    {
        let ghost before = hashes@;
        let at: usize = 8 * i;
        let groups: [[u8; 4]; 8] = [
            bytes_of(words[at]),
            bytes_of(words[at + 1]),
            bytes_of(words[at + 2]),
            bytes_of(words[at + 3]),
            bytes_of(words[at + 4]),
            bytes_of(words[at + 5]),
            bytes_of(words[at + 6]),
            bytes_of(words[at + 7]),
        ];
        let hash = Blake2sHash(bytes_of_words(groups));
        hashes.push(hash);
        proof {
            assert forall|j: int| 0 <= j < 8 implies hash_words(hash)[j] == words@[8 * i + j] by {
                let g = groups@[j]@;
                assert(word_at(g, 0) == words@[8 * i + j]);
                let h = hash.0@;
                assert(h[4 * j + 0] == g[0]);
                assert(h[4 * j + 1] == g[1]);
                assert(h[4 * j + 2] == g[2]);
                assert(h[4 * j + 3] == g[3]);
            }
            assert forall|k: int| 0 <= k < 8 * (i + 1) implies layer_words(hashes@)[k]
                == words@[k] by {
                if k < 8 * i {
                    assert(layer_words(before)[k] == words@.take(8 * i as int)[k]);
                    assert(hashes@[k / 8] == before[k / 8]);
                } else {
                    assert(k / 8 == i && k % 8 == k - 8 * i);
                    assert(hashes@[i as int] == hash);
                }
            }
            assert(layer_words(hashes@) == words@.take(8 * (i + 1)));
        }
        i = i + 1;
    }
    hashes
}

} // verus!
