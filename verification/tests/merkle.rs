use stwo_metal::backend::MetalBackend;
use stwo_metal::column::MetalBaseColumn;
use stwo_metal::fields::M31;
use stwo_metal::gpu::{Allocation, Binding, BlitCopy, Command, Dispatch, Grid, Kernel, Readback, Submission};
use stwo_metal::hash::{flatten_hashes, unflatten_hashes, Blake2sHash};
use stwo_metal::merkle::{merkle_node_submission, CommitPlan, CommitReply, MerkleHasher};
use stwo_metal::merkle_tree::{commit_tree_batched, finish_commit_tree_batched};

fn hash(seed: u8) -> Blake2sHash {
    let mut bytes = [0u8; 32];
    for (i, b) in bytes.iter_mut().enumerate() {
        *b = seed.wrapping_mul(31).wrapping_add(i as u8);
    }
    Blake2sHash(bytes)
}

fn hashes(n: usize) -> Vec<Blake2sHash> {
    (0..n).map(|i| hash(i as u8)).collect()
}

fn dispatch(command: &Command) -> &Dispatch {
    match command {
        Command::Compute(d) => d,
        Command::Copy(_) => panic!("a dispatch is expected"),
    }
}

fn data(allocation: &Allocation) -> &Vec<u32> {
    match allocation {
        Allocation::Data(words) => words,
        _ => panic!("data is expected"),
    }
}

#[test]
fn words_of_hashes_are_little_endian() {
    let mut bytes = [0u8; 32];
    bytes[0] = 0x78;
    bytes[1] = 0x56;
    bytes[2] = 0x34;
    bytes[3] = 0x12;
    bytes[28] = 1;
    bytes[31] = 0x80;
    let words = flatten_hashes(&[Blake2sHash(bytes)]);
    assert_eq!(words, vec![0x12345678, 0, 0, 0, 0, 0, 0, 0x80000001]);
    assert_eq!(unflatten_hashes(&words, 1), vec![Blake2sHash(bytes)]);
}

#[test]
fn hashes_survive_the_way_through_words() {
    let layer = hashes(5);
    let words = flatten_hashes(&layer);
    assert_eq!(words.len(), 40);
    assert_eq!(unflatten_hashes(&words, 5), layer);
    assert_eq!(unflatten_hashes(&words, 2), layer[..2].to_vec());
    for (i, h) in layer.iter().enumerate() {
        for j in 0..8 {
            let mut word = [0u8; 4];
            word.copy_from_slice(&h.0[4 * j..4 * j + 4]);
            assert_eq!(words[8 * i + j], u32::from_le_bytes(word));
        }
    }
}

fn check_node_submission(s: &Submission, children: &[Blake2sHash], is_m31: bool) {
    assert_eq!(data(&s.buffers[0]), &flatten_hashes(children));
    assert!(matches!(s.buffers[1], Allocation::Pooled(32768)));
    assert_eq!(s.buffers.len(), 2);
    assert_eq!(s.command_buffers.len(), 1);
    assert_eq!(s.command_buffers[0].len(), 1);
    let d = dispatch(&s.command_buffers[0][0]);
    assert_eq!(d.kernel, Kernel::Merkle);
    assert_eq!(
        d.bindings,
        vec![
            Binding::Buffer(0),
            Binding::Buffer(1),
            Binding::Bool(is_m31),
            Binding::U32(1024)
        ]
    );
    assert_eq!(
        d.grid,
        Grid {
            threadgroups: 4,
            threadgroup_size: 256
        }
    );
    assert_eq!(
        s.readbacks,
        vec![Readback {
            slot: 1,
            words: 8192
        }]
    );
}

#[test]
fn large_blake2s_layer_of_nodes_goes_to_the_gpu() {
    let children = hashes(2048);
    match MetalBackend::commit_on_layer_blake2s(10, Some(&children), &[]) {
        CommitPlan::Gpu(s) => check_node_submission(&s, &children, false),
        CommitPlan::Simd(_) => panic!("the layer is large"),
    }
}

#[test]
fn other_blake2s_layers_go_to_simd() {
    let column = MetalBaseColumn::from_iter(vec![M31(1), M31(2)]);
    let children = hashes(4);
    match MetalBackend::commit_on_layer_blake2s(1, Some(&children), &[&column]) {
        CommitPlan::Simd(request) => {
            assert_eq!(request.hasher, MerkleHasher::Blake2s);
            assert_eq!(request.log_size, 1);
            assert_eq!(request.prev_layer, Some(&children));
            assert_eq!(request.columns.len(), 1);
            assert_eq!(request.columns[0].values, vec![M31(1), M31(2)]);
        }
        CommitPlan::Gpu(_) => panic!("the layer is small"),
    }
    // Large, but with columns of its own.
    let children = hashes(2048);
    assert!(matches!(
        MetalBackend::commit_on_layer_blake2s(10, Some(&children), &[&column]),
        CommitPlan::Simd(_)
    ));
    // Large, but without children.
    assert!(matches!(
        MetalBackend::commit_on_layer_blake2s(10, None, &[]),
        CommitPlan::Simd(_)
    ));
    // One below the threshold.
    assert!(matches!(
        MetalBackend::commit_on_layer_blake2s(9, Some(&children), &[]),
        CommitPlan::Simd(_)
    ));
}

#[test]
fn large_m31_layer_of_nodes_goes_to_the_gpu() {
    let children = hashes(2048);
    match MetalBackend::commit_on_layer_blake2s_m31(10, Some(&children), &[]) {
        CommitPlan::Gpu(s) => check_node_submission(&s, &children, true),
        CommitPlan::Simd(_) => panic!("the layer is large"),
    }
}

#[test]
fn small_m31_layer_goes_to_simd() {
    let children = hashes(1024);
    match MetalBackend::commit_on_layer_blake2s_m31(9, Some(&children), &[]) {
        CommitPlan::Simd(request) => {
            assert_eq!(request.hasher, MerkleHasher::Blake2sM31);
            assert_eq!(request.prev_layer, Some(&children));
            assert!(request.columns.is_empty());
        }
        CommitPlan::Gpu(_) => panic!("the layer is small"),
    }
}

#[test]
fn large_m31_leaves_are_copied_into_one_block() {
    let a = MetalBaseColumn::from_iter((0..1024).map(M31::from).collect());
    let b = MetalBaseColumn::from_iter((5000..6024).map(M31::from).collect());
    let s = match MetalBackend::commit_on_layer_blake2s_m31(10, None, &[&a, &b]) {
        CommitPlan::Gpu(s) => s,
        CommitPlan::Simd(_) => panic!("the layer is large"),
    };
    assert_eq!(data(&s.buffers[0]), &(0..1024).collect::<Vec<u32>>());
    assert_eq!(data(&s.buffers[1]), &(5000..6024).collect::<Vec<u32>>());
    assert!(matches!(s.buffers[2], Allocation::Pooled(8192)));
    assert!(matches!(s.buffers[3], Allocation::Pooled(32768)));
    let commands = &s.command_buffers[0];
    assert_eq!(commands.len(), 3);
    let copies: Vec<BlitCopy> = commands[..2]
        .iter()
        .map(|c| match c {
            Command::Copy(copy) => *copy,
            Command::Compute(_) => panic!("the copies come first"),
        })
        .collect();
    assert_eq!(
        copies[1],
        BlitCopy {
            source: 1,
            source_offset: 0,
            destination: 2,
            destination_offset: 4096,
            size: 4096,
        }
    );
    // Carrying the copies out gives the columns one after the other.
    let mut block: Vec<u32> = vec![0; 2048];
    for c in &copies {
        let source = data(&s.buffers[c.source]);
        let n: usize = c.size as usize / 4;
        let at: usize = c.destination_offset as usize / 4;
        block[at..at + n].copy_from_slice(&source[..n]);
    }
    assert_eq!(block, (0..1024).chain(5000..6024).collect::<Vec<u32>>());
    let d = dispatch(&commands[2]);
    assert_eq!(d.kernel, Kernel::MerkleLeaf);
    assert_eq!(
        d.bindings,
        vec![
            Binding::Buffer(2),
            Binding::U32(2),
            Binding::U32(1024),
            Binding::Bool(true),
            Binding::Buffer(3),
        ]
    );
    assert_eq!(
        s.readbacks,
        vec![Readback {
            slot: 3,
            words: 8192
        }]
    );
}

#[test]
fn replies_become_layers() {
    let layer = hashes(4);
    assert_eq!(
        MetalBackend::finish_commit_on_layer(2, CommitReply::Simd(layer.clone())),
        layer
    );
    assert_eq!(
        MetalBackend::finish_commit_on_layer(2, CommitReply::Gpu(flatten_hashes(&layer))),
        layer
    );
}

#[test]
fn no_layers_or_no_hashes_are_no_work() {
    assert!(commit_tree_batched(&hashes(4), 0, false).is_none());
    assert!(commit_tree_batched(&[], 3, true).is_none());
    assert!(finish_commit_tree_batched(0, 3, &[]).is_empty());
    assert!(finish_commit_tree_batched(4, 0, &[]).is_empty());
}

/// A stand-in for the Merkle kernel.
fn toy_hash(children: &[u32], is_m31: bool, parents: usize) -> Vec<u32> {
    (0..8 * parents)
        .map(|i| {
            let (node, j) = (i / 8, i % 8);
            let word: u32 = children[16 * node + j]
                .wrapping_mul(3)
                .wrapping_add(children[16 * node + 8 + j]);
            if is_m31 {
                word % 2147483647
            } else {
                word
            }
        })
        .collect()
}

/// Carries a submission of Merkle dispatches out.
fn run(s: &Submission) -> Vec<Vec<u32>> {
    let mut memory: Vec<Vec<u32>> = s
        .buffers
        .iter()
        .map(|b| match b {
            Allocation::Data(words) => words.clone(),
            Allocation::Fresh(bytes) | Allocation::Pooled(bytes) => {
                vec![0xdead; *bytes as usize / 4]
            }
            Allocation::Twiddles { .. } => panic!("there are no twiddles"),
        })
        .collect();
    for commands in &s.command_buffers {
        for command in commands {
            let d = dispatch(command);
            match (d.bindings[0], d.bindings[1], d.bindings[2], d.bindings[3]) {
                (
                    Binding::Buffer(from),
                    Binding::Buffer(to),
                    Binding::Bool(is_m31),
                    Binding::U32(parents),
                ) => {
                    let out = toy_hash(&memory[from], is_m31, parents as usize);
                    memory[to][..out.len()].copy_from_slice(&out);
                }
                _ => panic!("the arguments of the Merkle kernel"),
            }
        }
    }
    s.readbacks
        .iter()
        .map(|r| memory[r.slot][..r.words].to_vec())
        .collect()
}

#[test]
fn batched_tree_is_built_layer_by_layer() {
    let leaves = hashes(16);
    let s = commit_tree_batched(&leaves, 4, true).unwrap();
    assert_eq!(s.command_buffers.len(), 1);
    assert_eq!(s.command_buffers[0].len(), 4);
    assert!(matches!(s.buffers[1], Allocation::Fresh(256)));
    assert!(matches!(s.buffers[4], Allocation::Fresh(32)));
    let layers = finish_commit_tree_batched(16, 4, &run(&s));
    assert_eq!(
        layers.iter().map(|l| l.len()).collect::<Vec<usize>>(),
        vec![8, 4, 2, 1]
    );
    let mut below = leaves;
    for layer in &layers {
        let single = run(&merkle_node_submission(&below, below.len() / 2, true));
        assert_eq!(&unflatten_hashes(&single[0], layer.len()), layer);
        below = layer.clone();
    }
}

#[test]
fn tree_over_an_odd_number_drops_the_last_and_may_run_empty() {
    let s = commit_tree_batched(&hashes(3), 3, false).unwrap();
    assert_eq!(
        s.readbacks,
        vec![
            Readback { slot: 1, words: 8 },
            Readback { slot: 2, words: 0 },
            Readback { slot: 3, words: 0 },
        ]
    );
    let d = dispatch(&s.command_buffers[0][2]);
    assert_eq!(
        d.grid,
        Grid {
            threadgroups: 0,
            threadgroup_size: 1
        }
    );
    let layers = finish_commit_tree_batched(3, 3, &run(&s));
    assert_eq!(layers[0].len(), 1);
    assert!(layers[1].is_empty() && layers[2].is_empty());
}

/// A layer of nodes end to end, with the toy hash on the GPU and on the SIMD backend.
fn commit(hasher: MerkleHasher, log_size: u32, children: &Vec<Blake2sHash>) -> Vec<Blake2sHash> {
    let (plan, is_m31) = match hasher {
        MerkleHasher::Blake2s => (
            MetalBackend::commit_on_layer_blake2s(log_size, Some(children), &[]),
            false,
        ),
        MerkleHasher::Blake2sM31 => (
            MetalBackend::commit_on_layer_blake2s_m31(log_size, Some(children), &[]),
            true,
        ),
    };
    let reply = match plan {
        CommitPlan::Gpu(s) => CommitReply::Gpu(run(&s).remove(0)),
        CommitPlan::Simd(request) => {
            let prev = request.prev_layer.unwrap();
            let words = toy_hash(&flatten_hashes(prev), is_m31, prev.len() / 2);
            CommitReply::Simd(unflatten_hashes(&words, prev.len() / 2))
        }
    };
    MetalBackend::finish_commit_on_layer(log_size, reply)
}

#[test]
fn layer_of_two_halves_is_their_two_layers() {
    let children = hashes(2048);
    let (low, high) = (children[..1024].to_vec(), children[1024..].to_vec());
    for hasher in [MerkleHasher::Blake2s, MerkleHasher::Blake2sM31] {
        // The large layer is computed on the GPU, the small ones on the SIMD backend.
        let mut halves = commit(hasher, 9, &low);
        halves.extend(commit(hasher, 9, &high));
        assert_eq!(commit(hasher, 10, &children), halves);
    }
}

#[test]
fn batched_tree_agrees_with_committing_across_the_threshold() {
    let leaves = hashes(4096);
    let s = commit_tree_batched(&leaves, 12, true).unwrap();
    let layers = finish_commit_tree_batched(4096, 12, &run(&s));
    let mut below = leaves;
    for (i, layer) in layers.iter().enumerate() {
        assert_eq!(
            &commit(MerkleHasher::Blake2sM31, 11 - i as u32, &below),
            layer
        );
        below = layer.clone();
    }
}

/// A stand-in for the hash of a row.
fn toy_row_hash(row: &[u32]) -> Vec<u32> {
    (0..8u32)
        .map(|j| row.iter().fold(j, |acc, w| acc.wrapping_mul(31).wrapping_add(*w)))
        .collect()
}

/// Carries the copies and the dispatch for rows of columns out.
fn run_leaves(s: &Submission) -> Vec<u32> {
    let mut memory: Vec<Vec<u32>> = s
        .buffers
        .iter()
        .map(|b| match b {
            Allocation::Data(words) => words.clone(),
            Allocation::Pooled(bytes) => vec![0xdead; *bytes as usize / 4],
            _ => panic!("columns and pooled memory"),
        })
        .collect();
    for command in &s.command_buffers[0] {
        match command {
            Command::Copy(c) => {
                let (from, to) = (c.source_offset as usize / 4, c.destination_offset as usize / 4);
                let words = memory[c.source][from..from + c.size as usize / 4].to_vec();
                memory[c.destination][to..to + words.len()].copy_from_slice(&words);
            }
            Command::Compute(d) => match (d.bindings[0], d.bindings[1], d.bindings[2], d.bindings[4]) {
                (
                    Binding::Buffer(block),
                    Binding::U32(columns),
                    Binding::U32(rows),
                    Binding::Buffer(out),
                ) => {
                    for r in 0..rows as usize {
                        let row: Vec<u32> = (0..columns as usize)
                            .map(|c| memory[block][rows as usize * c + r])
                            .collect();
                        memory[out][8 * r..8 * r + 8].copy_from_slice(&toy_row_hash(&row));
                    }
                }
                _ => panic!("the arguments of the kernel that hashes rows"),
            },
        }
    }
    let r = &s.readbacks[0];
    memory[r.slot][..r.words].to_vec()
}

/// A layer of leaves end to end, with the toy hash on the GPU and on the SIMD backend.
fn commit_leaves(log_size: u32, columns: &[&MetalBaseColumn]) -> Vec<Blake2sHash> {
    let reply = match MetalBackend::commit_on_layer_blake2s_m31(log_size, None, columns) {
        CommitPlan::Gpu(s) => CommitReply::Gpu(run_leaves(&s)),
        CommitPlan::Simd(request) => {
            let words: Vec<u32> = (0..1usize << log_size)
                .flat_map(|r| {
                    let row: Vec<u32> = request.columns.iter().map(|c| c.values[r].0).collect();
                    toy_row_hash(&row)
                })
                .collect();
            CommitReply::Simd(unflatten_hashes(&words, 1 << log_size))
        }
    };
    MetalBackend::finish_commit_on_layer(log_size, reply)
}

#[test]
fn leaves_are_hashed_by_row_across_the_threshold() {
    let values = |seed: u32| -> Vec<M31> { (0..1024).map(|i| M31(seed + 7 * i)).collect() };
    let column = |seed: u32| MetalBaseColumn::from_iter(values(seed));
    let (a, b, c) = (column(1), column(90000), column(5));
    let large = commit_leaves(10, &[&a, &b, &c]);
    let half = |seed: u32, from: usize| {
        MetalBaseColumn::from_iter(values(seed)[from..from + 512].to_vec())
    };
    let mut halves: Vec<Blake2sHash> = Vec::new();
    for from in [0, 512] {
        let (a, b, c) = (half(1, from), half(90000, from), half(5, from));
        halves.extend(commit_leaves(9, &[&a, &b, &c]));
    }
    assert_eq!(large, halves);
    assert_eq!(
        flatten_hashes(&large[1..2]),
        toy_row_hash(&[8, 90007, 12])
    );
}
