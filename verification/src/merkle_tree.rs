//! All layers of a Merkle tree in a single submission.
//!
//! The buffers of all layers are allocated up front and every layer is a dispatch of the same
//! command buffer, so the driver schedules the dependencies between layers by itself.
use crate::gpu::{
    allocation_views, command_views, lemma_allocation_views_push, lemma_command_views_push,
    Allocation, AllocationSpec, Command, CommandSpec, Readback, Submission, SubmissionSpec,
};
use crate::hash::{flatten_hashes, layer_words, unflatten_hashes, Blake2sHash};
use crate::merkle::{merkle_node_dispatch, node_dispatch};
use vstd::prelude::*;

verus! {

/// The number of hashes after `i` layers over `len` hashes: each layer has half as many as the
/// one below it, an odd one out being dropped.
pub open spec fn layer_size(len: nat, i: nat) -> nat
    decreases i,
{
    if i == 0 {
        len
    } else {
        layer_size(len, (i - 1) as nat) / 2
    }
}

/// No layer is larger than the one that the tree is built on.
pub proof fn lemma_layer_size_bound(len: nat, i: nat)
    ensures
        layer_size(len, i) <= len,
    decreases i,
{
    if i > 0 {
        lemma_layer_size_bound(len, (i - 1) as nat);
    }
}

/// The buffer of layer `i` of a tree over `len` hashes with the given words.
pub open spec fn tree_buffer(words: Seq<u32>, len: nat, i: int) -> AllocationSpec {
    if i == 0 {
        AllocationSpec::Data(words)
    } else {
        AllocationSpec::Fresh((32 * layer_size(len, i as nat)) as u64)
    }
}

/// The dispatch that computes layer `i + 1`.
pub open spec fn tree_command(len: nat, is_m31: bool, i: int) -> CommandSpec {
    CommandSpec::Compute(
        node_dispatch(i as usize, (i + 1) as usize, is_m31, layer_size(len, (i + 1) as nat) as int),
    )
}

/// The read-back of layer `i + 1`.
pub open spec fn tree_readback(len: nat, i: int) -> Readback {
    Readback {
        slot: (i + 1) as usize,
        words: (8 * layer_size(len, (i + 1) as nat)) as usize,
    }
}

/// `layers` layers over `len` hashes with the given words.
pub open spec fn tree_submission(words: Seq<u32>, len: nat, layers: nat, is_m31: bool) ->
    SubmissionSpec {
    SubmissionSpec {
        buffers: Seq::new(layers + 1, |i: int| tree_buffer(words, len, i)),
        command_buffers: seq![Seq::new(layers, |i: int| tree_command(len, is_m31, i))],
        readbacks: Seq::new(layers, |i: int| tree_readback(len, i)),
    }
}

/// The GPU work for `num_layers` layers over a layer of hashes; `None` where there is none to do.
pub fn commit_tree_batched(initial_layer: &[Blake2sHash], num_layers: u32, is_m31: bool) -> (s:
    Option<Submission>)
    requires
        32 * initial_layer@.len() <= usize::MAX,
    ensures
        s is None <==> num_layers == 0 || initial_layer@.len() == 0,
        s matches Some(s) ==> s@ == tree_submission(
            layer_words(initial_layer@),
            initial_layer@.len(),
            num_layers as nat,
            is_m31,
        ),
{
    if num_layers == 0 || initial_layer.len() == 0 {
        return None;
    }
    let ghost words = layer_words(initial_layer@);
    let ghost len = initial_layer@.len();
    let data = Allocation::Data(flatten_hashes(initial_layer));
    let mut buffers: Vec<Allocation> = Vec::new();
    proof {
        lemma_allocation_views_push(buffers@, data);
    }
    buffers.push(data);
    let mut commands: Vec<Command> = Vec::new();
    let mut readbacks: Vec<Readback> = Vec::new();
    let mut size: usize = initial_layer.len();
    let layers: usize = num_layers as usize;
    let mut i: usize = 0;
    assert(allocation_views(buffers@) =~= Seq::new(1, |i: int| tree_buffer(words, len, i)));
    assert(command_views(commands@) =~= Seq::new(0, |i: int| tree_command(len, is_m31, i)));
    assert(readbacks@ =~= Seq::new(0, |i: int| tree_readback(len, i)));
    while i < layers
        invariant
            i <= layers,
            layers == num_layers,
            size == layer_size(len, i as nat),
            32 * len <= usize::MAX,
            allocation_views(buffers@) == Seq::new(
                (i + 1) as nat,
                |i: int| tree_buffer(words, len, i),
            ),
            command_views(commands@) == Seq::new(
                i as nat,
                |i: int| tree_command(len, is_m31, i),
            ),
            readbacks@ == Seq::new(i as nat, |i: int| tree_readback(len, i)),
        decreases layers - i,
    {
        size = size / 2;
        proof {
            lemma_layer_size_bound(len, (i + 1) as nat);
        }
        let buffer = Allocation::Fresh((size * 8 * 4) as u64);
        let command = Command::Compute(merkle_node_dispatch(i, i + 1, is_m31, size));
        proof {
            lemma_allocation_views_push(buffers@, buffer);
            lemma_command_views_push(commands@, command);
        }
        buffers.push(buffer);
        commands.push(command);
        readbacks.push(Readback { slot: i + 1, words: size * 8 });
        i = i + 1;
        assert(allocation_views(buffers@) =~= Seq::new(
            (i + 1) as nat,
            |i: int| tree_buffer(words, len, i),
        ));
        assert(command_views(commands@) =~= Seq::new(
            i as nat,
            |i: int| tree_command(len, is_m31, i),
        ));
        assert(readbacks@ =~= Seq::new(i as nat, |i: int| tree_readback(len, i)));
    }
    let s = Submission { buffers, command_buffers: vec![commands], readbacks };
    proof {
        let want = tree_submission(words, len, num_layers as nat, is_m31);
        assert(s@.command_buffers =~= want.command_buffers);
        assert(s@ =~= want);
    }
    Some(s)
}

/// The layers above a layer of `initial_len` hashes, from the words that were read back of each.
pub fn finish_commit_tree_batched(initial_len: usize, num_layers: u32, replies: &[Vec<u32>]) -> (r:
    Vec<Vec<Blake2sHash>>)
    requires
        8 * initial_len <= usize::MAX,
        initial_len > 0 ==> replies@.len() == num_layers && forall|i: int|
            0 <= i < num_layers ==> (#[trigger] replies@[i])@.len() >= 8 * layer_size(
                initial_len as nat,
                (i + 1) as nat,
            ),
    ensures
        initial_len == 0 ==> r@.len() == 0,
        initial_len > 0 ==> r@.len() == num_layers,
        forall|i: int|
            0 <= i < r@.len() ==> {
                &&& (#[trigger] r@[i])@.len() == layer_size(initial_len as nat, (i + 1) as nat)
                &&& layer_words(r@[i]@) == replies@[i]@.take(
                    8 * layer_size(initial_len as nat, (i + 1) as nat) as int,
                )
            },
{
    let mut r: Vec<Vec<Blake2sHash>> = Vec::new();
    if initial_len == 0 {
        return r;
    }
    let mut size: usize = initial_len;
    let mut i: usize = 0;
    while i < replies.len()
        invariant
            i <= replies@.len(),
            size == layer_size(initial_len as nat, i as nat),
            forall|i: int|
                0 <= i < replies@.len() ==> (#[trigger] replies@[i])@.len() >= 8 * layer_size(
                    initial_len as nat,
                    (i + 1) as nat,
                ),
            r@.len() == i,
            forall|j: int|
                0 <= j < i ==> {
                    &&& (#[trigger] r@[j])@.len() == layer_size(initial_len as nat, (j + 1) as nat)
                    &&& layer_words(r@[j]@) == replies@[j]@.take(
                        8 * layer_size(initial_len as nat, (j + 1) as nat) as int,
                    )
                },
        decreases replies@.len() - i,
    {
        size = size / 2;
        assert(replies@[i as int]@.len() >= 8 * layer_size(initial_len as nat, (i + 1) as nat));
        let layer: Vec<Blake2sHash> = unflatten_hashes(replies[i].as_slice(), size);
        r.push(layer);
        i = i + 1;
    }
    r
}

} // verus!
