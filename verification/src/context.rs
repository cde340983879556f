//! The context: handles of the device, compiled pipelines, and caches of buffers.
use crate::bits::{
    bit_reverse_index, bit_reversed, lemma_bit_reversed_bound, lemma_bit_reversed_involution,
};
use crate::buffer::{raw, Buffer};
use crate::circle::{CircleDomain, CirclePoint};
use crate::fields::M31;
use crate::gpu::Kernel;
use crate::init::{pipeline_index, ContextInit, InitStage};
use std::collections::hash_map::DefaultHasher;
use std::collections::HashMap;
use std::hash::Hasher;
use std::sync::Arc;
use vstd::arithmetic::power2::*;
use vstd::bytes::*;
use vstd::prelude::*;
use vstd::std_specs::hash::*;

verus! {

broadcast use group_hash_axioms;

/// A device of type `D`, its command queue of type `Q`, pipelines of type `P`, and the buffers
/// that are worth keeping.
pub struct MetalContext<D, Q, P> {
    device: D,
    command_queue: Q,
    pipelines: [P; 15],
    twiddle_cache: HashMap<u64, Buffer>,
    flat_twiddle_cache: HashMap<u64, Buffer>,
    domain_xy_cache: HashMap<u32, (Buffer, Buffer)>,
}

/// What is hashed of twiddles: their number and, as far as there are any, the first, the middle
/// and the last of them.
pub open spec fn twiddle_sample(twiddles: Seq<u32>) -> Seq<Seq<u8>> {
    let len = spec_u64_to_le_bytes(twiddles.len() as u64);
    if twiddles.len() == 0 {
        seq![len]
    } else if twiddles.len() == 1 {
        seq![len, spec_u32_to_le_bytes(twiddles[0])]
    } else {
        seq![
            len,
            spec_u32_to_le_bytes(twiddles[0]),
            spec_u32_to_le_bytes(twiddles[twiddles.len() as int / 2]),
            spec_u32_to_le_bytes(twiddles.last()),
        ]
    }
}

/// The key under which twiddles are cached.
pub open spec fn twiddle_key(twiddles: Seq<u32>) -> u64 {
    DefaultHasher::spec_finish(twiddle_sample(twiddles))
}

/// The twiddle cache after it has been asked for twiddles: it keeps exactly these under their
/// key.
pub open spec fn twiddles_cached(cache: Map<u64, Seq<u32>>, twiddles: Seq<u32>) -> Map<
    u64,
    Seq<u32>,
> {
    cache.insert(twiddle_key(twiddles), twiddles)
}

/// The words of cached buffers.
pub open spec fn kept_words(cache: Map<u64, Buffer>) -> Map<u64, Seq<u32>> {
    cache.map_values(|b: Buffer| raw(b@))
}

/// The twiddles are in the cache.
pub open spec fn holds_twiddles(cache: Map<u64, Seq<u32>>, twiddles: Seq<u32>) -> bool {
    cache.dom().contains(twiddle_key(twiddles)) && cache[twiddle_key(twiddles)] == twiddles
}

/// What asking for twiddles does to a context: they are in the cache afterwards, and nothing at
/// all changes if they were before.
pub open spec fn asked_for_twiddles<D, Q, P>(
    before: MetalContext<D, Q, P>,
    after: MetalContext<D, Q, P>,
    twiddles: Seq<u32>,
) -> bool {
    &&& after.same_handles(&before)
    &&& after.kept_domains() == before.kept_domains()
    &&& after.kept_flat_twiddles() == before.kept_flat_twiddles()
    &&& after.kept_twiddles() == before.kept_twiddles().insert(
        twiddle_key(twiddles),
        after.kept_twiddles()[twiddle_key(twiddles)],
    )
    &&& after.twiddle_buffers() == twiddles_cached(before.twiddle_buffers(), twiddles)
    &&& holds_twiddles(before.twiddle_buffers(), twiddles) ==> after == before
}

/// What asking for several layers of twiddles in one buffer does to a context.
pub open spec fn asked_for_flat_twiddles<D, Q, P>(
    before: MetalContext<D, Q, P>,
    after: MetalContext<D, Q, P>,
    flat: Seq<u32>,
) -> bool {
    &&& after.same_handles(&before)
    &&& after.kept_domains() == before.kept_domains()
    &&& after.kept_twiddles() == before.kept_twiddles()
    &&& after.kept_flat_twiddles() == before.kept_flat_twiddles().insert(
        twiddle_key(flat),
        after.kept_flat_twiddles()[twiddle_key(flat)],
    )
    &&& after.flat_twiddle_buffers() == twiddles_cached(before.flat_twiddle_buffers(), flat)
    &&& holds_twiddles(before.flat_twiddle_buffers(), flat) ==> after == before
}

/// What asking for the points of a domain does to a context: those of a domain of the size are in
/// the cache afterwards, and nothing at all changes if they were before.
pub open spec fn asked_for_domain<D, Q, P>(
    before: MetalContext<D, Q, P>,
    after: MetalContext<D, Q, P>,
    domain: CircleDomain,
) -> bool {
    &&& after.same_handles(&before)
    &&& after.kept_twiddles() == before.kept_twiddles()
    &&& after.kept_flat_twiddles() == before.kept_flat_twiddles()
    &&& after.kept_domains() == before.kept_domains().insert(
        domain.spec_log_size() as u32,
        after.kept_domains()[domain.spec_log_size() as u32],
    )
    &&& after.domain_buffers() == domain_cached(before.domain_buffers(), domain)
    &&& before.domain_buffers().dom().contains(domain.spec_log_size() as u32) ==> after == before
}

/// Asking twice for the same twiddles gives the very same buffer, and the second time changes
/// nothing.
pub proof fn law_same_twiddle_buffer<D, Q, P>(
    start: MetalContext<D, Q, P>,
    first: MetalContext<D, Q, P>,
    second: MetalContext<D, Q, P>,
    twiddles: Seq<u32>,
)
    requires
        asked_for_twiddles(start, first, twiddles),
        asked_for_twiddles(first, second, twiddles),
    ensures
        second == first,
        first.kept_twiddles().dom().contains(twiddle_key(twiddles)),
        second.kept_twiddles()[twiddle_key(twiddles)] == first.kept_twiddles()[twiddle_key(
            twiddles,
        )],
        raw(first.kept_twiddles()[twiddle_key(twiddles)]@) == twiddles,
{
    let key = twiddle_key(twiddles);
    assert(first.twiddle_buffers().dom().contains(key));
    assert(first.twiddle_buffers()[key] == twiddles);
    assert(first.kept_twiddles().dom().contains(key));
}

/// Asking for the points of a second domain of the same size gives the very same buffers as for
/// the first, also if a domain of any size has been asked for in between.
pub proof fn law_same_domain_buffers<D, Q, P>(
    start: MetalContext<D, Q, P>,
    first: MetalContext<D, Q, P>,
    between: MetalContext<D, Q, P>,
    second: MetalContext<D, Q, P>,
    domain: CircleDomain,
    third: CircleDomain,
    other: CircleDomain,
)
    requires
        asked_for_domain(start, first, domain),
        asked_for_domain(first, between, third),
        asked_for_domain(between, second, other),
        other.spec_log_size() == domain.spec_log_size(),
    ensures
        second == between,
        first.kept_domains().dom().contains(domain.spec_log_size() as u32),
        second.kept_domains()[other.spec_log_size() as u32]
            == first.kept_domains()[domain.spec_log_size() as u32],
{
    let size = domain.spec_log_size() as u32;
    assert(first.domain_buffers().dom().contains(size));
    assert(first.kept_domains().dom().contains(size));
    assert(between.kept_domains().dom().contains(size));
    assert(between.domain_buffers().dom().contains(size));
}

/// A stretch of a flat buffer of twiddles, counted in words.
#[derive(Clone, Copy, Debug, PartialEq, Eq, Structural)]
pub struct TwiddleSection {
    pub offset: usize,
    pub len: usize,
}

/// Several layers of twiddles in one buffer, and where in it each of them lies.
#[derive(Debug)]
pub struct FlatTwiddleBuffer<'a> {
    pub buffer: &'a Buffer,
    pub sections: Vec<TwiddleSection>,
}

/// The first `n` layers of twiddles, one after the other.
pub open spec fn flat_twiddles(layers: Seq<&[u32]>, n: nat) -> Seq<u32>
    decreases n,
{
    if n == 0 {
        Seq::empty()
    } else {
        flat_twiddles(layers, (n - 1) as nat) + layers[n - 1]@
    }
}

/// The `x` coordinates of the points of a domain in bit-reversed order.
pub open spec fn domain_x(domain: CircleDomain) -> Seq<u32> {
    let log_size = domain.spec_log_size();
    Seq::new(
        pow2(log_size),
        |i: int| domain.point(bit_reversed(i as nat, log_size)).x.0,
    )
}

/// The `y` coordinates of the points of a domain in bit-reversed order.
pub open spec fn domain_y(domain: CircleDomain) -> Seq<u32> {
    let log_size = domain.spec_log_size();
    Seq::new(
        pow2(log_size),
        |i: int| domain.point(bit_reversed(i as nat, log_size)).y.0,
    )
}

/// The domain cache after it has been asked for the points of a domain.
pub open spec fn domain_cached(
    cache: Map<u32, (Seq<u32>, Seq<u32>)>,
    domain: CircleDomain,
) -> Map<u32, (Seq<u32>, Seq<u32>)> {
    let key = domain.spec_log_size() as u32;
    if cache.dom().contains(key) {
        cache
    } else {
        cache.insert(key, (domain_x(domain), domain_y(domain)))
    }
}

/// Whatever is cached, asking for twiddles finds exactly these; asking again changes nothing, and
/// twiddles with another key are kept.
pub proof fn law_twiddle_cache(cache: Map<u64, Seq<u32>>, twiddles: Seq<u32>, key: u64)
    ensures
        ({
            let once = twiddles_cached(cache, twiddles);
            &&& once.dom().contains(twiddle_key(twiddles))
            &&& once[twiddle_key(twiddles)] == twiddles
            &&& twiddles_cached(once, twiddles) == once
            &&& key != twiddle_key(twiddles) && cache.dom().contains(key)
                ==> once.dom().contains(key) && once[key] == cache[key]
        }),
{
    let once = twiddles_cached(cache, twiddles);
    assert(twiddles_cached(once, twiddles) =~= once);
}

/// Asking for the points of a domain keeps what is cached, and asking again, for this or any
/// other domain of the size, changes nothing and finds the same points.
pub proof fn law_domain_cache(
    cache: Map<u32, (Seq<u32>, Seq<u32>)>,
    domain: CircleDomain,
    other: CircleDomain,
    key: u32,
)
    requires
        other.spec_log_size() == domain.spec_log_size(),
    ensures
        ({
            let once = domain_cached(cache, domain);
            let size = domain.spec_log_size() as u32;
            &&& domain_cached(once, other) == once
            &&& once.dom().contains(size)
            &&& cache.dom().contains(key) ==> once.dom().contains(key) && once[key] == cache[key]
            &&& !cache.dom().contains(size) ==> once[size] == (domain_x(domain), domain_y(domain))
        }),
{
}

/// The buffers of a domain hold every point once: point `i` stands at the reversal of `i`.
pub proof fn law_domain_order(domain: CircleDomain, i: nat)
    requires
        i < pow2(domain.spec_log_size()),
    ensures
        bit_reversed(i, domain.spec_log_size()) < pow2(domain.spec_log_size()),
        domain_x(domain)[bit_reversed(i, domain.spec_log_size()) as int] == domain.point(i).x.0,
        domain_y(domain)[bit_reversed(i, domain.spec_log_size()) as int] == domain.point(i).y.0,
{
    lemma_bit_reversed_bound(i, domain.spec_log_size());
    lemma_bit_reversed_involution(i, domain.spec_log_size());
}

/// The key under which twiddles are cached.
pub(crate) fn hash_twiddles(twiddles: &[u32]) -> (key: u64)
    ensures
        key == twiddle_key(twiddles@),
{
    let mut hasher: DefaultHasher = DefaultHasher::new();
    let n: usize = twiddles.len();
    hasher.write(u64_to_le_bytes(n as u64).as_slice());
    if n > 0 {
        hasher.write(u32_to_le_bytes(twiddles[0]).as_slice());
        if n > 1 {
            hasher.write(u32_to_le_bytes(twiddles[n / 2]).as_slice());
            hasher.write(u32_to_le_bytes(twiddles[n - 1]).as_slice());
        }
    }
    assert(hasher@ =~= twiddle_sample(twiddles@));
    hasher.finish()
}

/// Whether a buffer holds exactly the given words.
fn holds_words(buffer: &Buffer, words: &[u32]) -> (b: bool)
    ensures
        b == (raw(buffer@) == words@),
{
    let held: Vec<M31> = buffer.words();
    if held.len() != words.len() {
        assert(raw(buffer@).len() != words@.len());
        return false;
    }
    let mut i: usize = 0;
    while i < words.len()
        invariant
            i <= words@.len(),
            held@ == buffer@,
            held@.len() == words@.len(),
            forall|j: int| 0 <= j < i ==> held@[j].0 == words@[j],
        decreases words@.len() - i,
    {
        if held[i].0 != words[i] {
            assert(raw(buffer@)[i as int] != words@[i as int]);
            return false;
        }
        i = i + 1;
    }
    assert(raw(buffer@) =~= words@);
    true
}

/// Whether a cache keeps exactly the given words under their key.
fn keeps(cache: &HashMap<u64, Buffer>, words: &[u32]) -> (b: bool)
    ensures
        b == holds_twiddles(kept_words(cache@), words@),
{
    let key: u64 = hash_twiddles(words);
    match cache.get(&key) {
        Some(buffer) => holds_words(buffer, words),
        None => false,
    }
}

/// The words of all layers one after the other, and where each layer lies.
fn flatten_twiddles(layers: &[&[u32]]) -> (r: (Vec<u32>, Vec<TwiddleSection>))
    ensures
        r.0@ == flat_twiddles(layers@, layers@.len()),
        r.1@.len() == layers@.len(),
        forall|i: int|
            0 <= i < layers@.len() ==> {
                &&& (#[trigger] r.1@[i]).offset == flat_twiddles(layers@, i as nat).len()
                &&& r.1@[i].len == layers@[i]@.len()
            },
{
    let mut flat: Vec<u32> = Vec::new();
    let mut sections: Vec<TwiddleSection> = Vec::new();
    let mut i: usize = 0;
    while i < layers.len()
        invariant
            i <= layers@.len(),
            flat@ == flat_twiddles(layers@, i as nat),
            sections@.len() == i,
            forall|j: int|
                0 <= j < i ==> {
                    &&& (#[trigger] sections@[j]).offset == flat_twiddles(layers@, j as nat).len()
                    &&& sections@[j].len == layers@[j]@.len()
                },
        decreases layers@.len() - i,
    {
        let layer: &[u32] = layers[i];
        sections.push(TwiddleSection { offset: flat.len(), len: layer.len() });
        let mut j: usize = 0;
        while j < layer.len()
            invariant
                j <= layer@.len(),
                i < layers@.len(),
                layer@ == layers@[i as int]@,
                flat@ == flat_twiddles(layers@, i as nat) + layer@.take(j as int),
            decreases layer@.len() - j,
        {
            flat.push(layer[j]);
            j = j + 1;
            assert(flat@ =~= flat_twiddles(layers@, i as nat) + layer@.take(j as int));
        }
        assert(layer@.take(j as int) =~= layer@);
        i = i + 1;
    }
    (flat, sections)
}

/// Every layer lies in a flat buffer where its section says.
pub proof fn law_flat_twiddle_sections(layers: Seq<&[u32]>, i: nat, n: nat)
    requires
        i < n <= layers.len(),
    ensures
        flat_twiddles(layers, i).len() + layers[i as int]@.len() <= flat_twiddles(layers, n).len(),
        flat_twiddles(layers, n).subrange(
            flat_twiddles(layers, i).len() as int,
            (flat_twiddles(layers, i).len() + layers[i as int]@.len()) as int,
        ) == layers[i as int]@,
    decreases n,
{
    let start = flat_twiddles(layers, i).len() as int;
    let end = (flat_twiddles(layers, i).len() + layers[i as int]@.len()) as int;
    if n == i + 1 {
        assert(flat_twiddles(layers, n).subrange(start, end) =~= layers[i as int]@);
    } else {
        let p = (n - 1) as nat;
        law_flat_twiddle_sections(layers, i, p);
        assert(flat_twiddles(layers, n).subrange(start, end) =~= flat_twiddles(
            layers,
            p,
        ).subrange(start, end));
    }
}

/// The coordinates of the points of a domain in bit-reversed order.
fn domain_points(domain: CircleDomain) -> (r: (Vec<u32>, Vec<u32>))
    requires
        domain.fits(),
    ensures
        r.0@ == domain_x(domain),
        r.1@ == domain_y(domain),
{
    let points: Vec<CirclePoint<M31>> = domain.points();
    let log_size: u32 = domain.log_size();
    let size: usize = domain.size();
    let mut xs: Vec<u32> = Vec::with_capacity(size);
    let mut ys: Vec<u32> = Vec::with_capacity(size);
    let mut i: usize = 0;
    while i < size
        invariant
            i <= size,
            log_size == domain.spec_log_size(),
            log_size < usize::BITS,
            size == pow2(log_size as nat),
            points@ == Seq::new(pow2(log_size as nat), |i: int| domain.point(i as nat)),
            xs@ == domain_x(domain).take(i as int),
            ys@ == domain_y(domain).take(i as int),
        decreases size - i,
    {
        let p: CirclePoint<M31> = points[bit_reverse_index(i, log_size)];
        xs.push(p.x.0);
        ys.push(p.y.0);
        i = i + 1;
        assert(xs@ =~= domain_x(domain).take(i as int));
        assert(ys@ =~= domain_y(domain).take(i as int));
    }
    assert(domain_x(domain).take(i as int) =~= domain_x(domain));
    assert(domain_y(domain).take(i as int) =~= domain_y(domain));
    (xs, ys)
}

impl<D, Q, P> MetalContext<D, Q, P> {
    /// The device.
    pub closed spec fn spec_device(&self) -> D {
        self.device
    }

    /// The command queue.
    pub closed spec fn spec_command_queue(&self) -> Q {
        self.command_queue
    }

    /// The pipelines in the order of their compilation.
    pub closed spec fn pipelines(&self) -> Seq<P> {
        self.pipelines@
    }

    /// The pipeline of a kernel, if it is one that a context compiles.
    pub open spec fn pipeline_of(&self, kernel: Kernel) -> Option<P> {
        match pipeline_index(kernel) {
            Some(i) => Some(self.pipelines()[i]),
            None => None,
        }
    }

    /// The cached twiddle buffers.
    pub closed spec fn kept_twiddles(&self) -> Map<u64, Buffer> {
        self.twiddle_cache@
    }

    /// The cached buffers of several layers of twiddles.
    pub closed spec fn kept_flat_twiddles(&self) -> Map<u64, Buffer> {
        self.flat_twiddle_cache@
    }

    /// The cached buffers of domain points, by log size.
    pub closed spec fn kept_domains(&self) -> Map<u32, (Buffer, Buffer)> {
        self.domain_xy_cache@
    }

    /// The words of the cached twiddle buffers.
    pub open spec fn twiddle_buffers(&self) -> Map<u64, Seq<u32>> {
        kept_words(self.kept_twiddles())
    }

    /// The words of the cached buffers of several layers of twiddles.
    pub open spec fn flat_twiddle_buffers(&self) -> Map<u64, Seq<u32>> {
        kept_words(self.kept_flat_twiddles())
    }

    /// The words of the cached buffers of domain points, by log size.
    pub open spec fn domain_buffers(&self) -> Map<u32, (Seq<u32>, Seq<u32>)> {
        self.kept_domains().map_values(|b: (Buffer, Buffer)| (raw(b.0@), raw(b.1@)))
    }

    /// The two contexts differ at most in what they have cached.
    pub open spec fn same_handles(&self, other: &MetalContext<D, Q, P>) -> bool {
        &&& self.spec_device() == other.spec_device()
        &&& self.spec_command_queue() == other.spec_command_queue()
        &&& self.pipelines() == other.pipelines()
    }

    /// The context of a finished initialization, with empty caches.
    pub fn new(init: ContextInit<P>, device: D, command_queue: Q) -> (c: MetalContext<D, Q, P>)
        requires
            init@.stage == InitStage::Finished,
        ensures
            c.spec_device() == device,
            c.spec_command_queue() == command_queue,
            c.pipelines() == init@.pipelines,
            c.twiddle_buffers() == Map::<u64, Seq<u32>>::empty(),
            c.flat_twiddle_buffers() == Map::<u64, Seq<u32>>::empty(),
            c.domain_buffers() == Map::<u32, (Seq<u32>, Seq<u32>)>::empty(),
    {
        let c = MetalContext {
            device,
            command_queue,
            pipelines: init.into_pipelines(),
            twiddle_cache: HashMap::new(),
            flat_twiddle_cache: HashMap::new(),
            domain_xy_cache: HashMap::new(),
        };
        assert(c.twiddle_buffers() =~= Map::<u64, Seq<u32>>::empty());
        assert(c.flat_twiddle_buffers() =~= Map::<u64, Seq<u32>>::empty());
        assert(c.domain_buffers() =~= Map::<u32, (Seq<u32>, Seq<u32>)>::empty());
        c
    }

    /// The device.
    pub fn device(&self) -> (d: &D)
        ensures
            *d == self.spec_device(),
    {
        &self.device
    }

    /// The command queue.
    pub fn command_queue(&self) -> (q: &Q)
        ensures
            *q == self.spec_command_queue(),
    {
        &self.command_queue
    }

    /// The pipeline of radix-8 FFT steps.
    pub fn fft_radix8_pipeline(&self) -> (p: &P)
        ensures
            Some(*p) == self.pipeline_of(Kernel::FftRadix8),
    {
        &self.pipelines[0]
    }

    /// The pipeline of radix-8 IFFT steps.
    pub fn ifft_radix8_pipeline(&self) -> (p: &P)
        ensures
            Some(*p) == self.pipeline_of(Kernel::IfftRadix8),
    {
        &self.pipelines[1]
    }

    /// The pipeline of radix-2 FFT steps.
    pub fn fft_radix2_pipeline(&self) -> (p: &P)
        ensures
            Some(*p) == self.pipeline_of(Kernel::FftRadix2),
    {
        &self.pipelines[2]
    }

    /// The pipeline of radix-2 IFFT steps.
    pub fn ifft_radix2_pipeline(&self) -> (p: &P)
        ensures
            Some(*p) == self.pipeline_of(Kernel::IfftRadix2),
    {
        &self.pipelines[3]
    }

    /// The pipeline of the fused vecwise FFT layers.
    pub fn fft_vecwise_fused_pipeline(&self) -> (p: &P)
        ensures
            Some(*p) == self.pipeline_of(Kernel::FftVecwiseFused),
    {
        &self.pipelines[4]
    }

    /// The pipeline of IFFT normalization.
    pub fn ifft_normalize_pipeline(&self) -> (p: &P)
        ensures
            Some(*p) == self.pipeline_of(Kernel::IfftNormalize),
    {
        &self.pipelines[5]
    }

    /// The pipeline that folds a circle into a line.
    pub fn fri_fold_circle_pipeline(&self) -> (p: &P)
        ensures
            Some(*p) == self.pipeline_of(Kernel::FriFoldCircle),
    {
        &self.pipelines[6]
    }

    /// The pipeline that folds a line.
    pub fn fri_fold_line_pipeline(&self) -> (p: &P)
        ensures
            Some(*p) == self.pipeline_of(Kernel::FriFoldLine),
    {
        &self.pipelines[7]
    }

    /// The pipeline of quotient accumulation.
    pub fn quotient_pipeline(&self) -> (p: &P)
        ensures
            Some(*p) == self.pipeline_of(Kernel::Quotient),
    {
        &self.pipelines[8]
    }

    /// The pipeline of Merkle hashing.
    pub fn merkle_pipeline(&self) -> (p: &P)
        ensures
            Some(*p) == self.pipeline_of(Kernel::Merkle),
    {
        &self.pipelines[9]
    }

    /// The pipeline that fixes a variable over the base field.
    pub fn mle_fold_m31_pipeline(&self) -> (p: &P)
        ensures
            Some(*p) == self.pipeline_of(Kernel::MleFoldM31),
    {
        &self.pipelines[10]
    }

    /// The pipeline that fixes a variable over the secure field.
    pub fn mle_fold_qm31_pipeline(&self) -> (p: &P)
        ensures
            Some(*p) == self.pipeline_of(Kernel::MleFoldQm31),
    {
        &self.pipelines[11]
    }

    /// The pipeline of proof-of-work grinding.
    pub fn grind_pipeline(&self) -> (p: &P)
        ensures
            Some(*p) == self.pipeline_of(Kernel::Grind),
    {
        &self.pipelines[12]
    }

    /// The pipeline that interleaves coordinates.
    pub fn pack_coords_to_qm31_pipeline(&self) -> (p: &P)
        ensures
            Some(*p) == self.pipeline_of(Kernel::PackCoordsToQm31),
    {
        &self.pipelines[13]
    }

    /// The pipeline that takes coordinates apart.
    pub fn unpack_qm31_to_coords_pipeline(&self) -> (p: &P)
        ensures
            Some(*p) == self.pipeline_of(Kernel::UnpackQm31ToCoords),
    {
        &self.pipelines[14]
    }

    /// The pipeline of a kernel; `None` for a kernel that a context does not compile.
    pub fn pipeline(&self, kernel: Kernel) -> (p: Option<&P>)
        ensures
            match p {
                Some(p) => self.pipeline_of(kernel) == Some(*p),
                None => self.pipeline_of(kernel) is None,
            },
    {
        match kernel {
            Kernel::FftRadix8 => Some(self.fft_radix8_pipeline()),
            Kernel::IfftRadix8 => Some(self.ifft_radix8_pipeline()),
            Kernel::FftRadix2 => Some(self.fft_radix2_pipeline()),
            Kernel::IfftRadix2 => Some(self.ifft_radix2_pipeline()),
            Kernel::FftVecwiseFused => Some(self.fft_vecwise_fused_pipeline()),
            Kernel::IfftNormalize => Some(self.ifft_normalize_pipeline()),
            Kernel::FriFoldCircle => Some(self.fri_fold_circle_pipeline()),
            Kernel::FriFoldLine => Some(self.fri_fold_line_pipeline()),
            Kernel::Quotient => Some(self.quotient_pipeline()),
            Kernel::Merkle => Some(self.merkle_pipeline()),
            Kernel::MleFoldM31 => Some(self.mle_fold_m31_pipeline()),
            Kernel::MleFoldQm31 => Some(self.mle_fold_qm31_pipeline()),
            Kernel::Grind => Some(self.grind_pipeline()),
            Kernel::PackCoordsToQm31 => Some(self.pack_coords_to_qm31_pipeline()),
            Kernel::UnpackQm31ToCoords => Some(self.unpack_qm31_to_coords_pipeline()),
            Kernel::MerkleLeaf => None,
        }
    }

    /// Whether the cache holds the buffer of twiddles.
    pub fn has_twiddle_buffer(&self, twiddles: &[u32]) -> (b: bool)
        ensures
            b == holds_twiddles(self.twiddle_buffers(), twiddles@),
    {
        keeps(&self.twiddle_cache, twiddles)
    }

    /// The buffer of twiddles, out of the cache if it is there.
    ///
    /// Only a few of the twiddles go into the key, so a buffer under the key is held against the
    /// twiddles and replaced where it differs.
    pub fn get_or_create_twiddle_buffer(&mut self, twiddles: &[u32]) -> (b: &Buffer)
        ensures
            raw(b@) == twiddles@,
            *b == final(self).kept_twiddles()[twiddle_key(twiddles@)],
            asked_for_twiddles(*old(self), *final(self), twiddles@),
    {
        let key: u64 = hash_twiddles(twiddles);
        if !keeps(&self.twiddle_cache, twiddles) {
            self.twiddle_cache.insert(key, Buffer::with_words(twiddles));
        }
        assert(self.twiddle_buffers() =~= twiddles_cached(
            old(self).twiddle_buffers(),
            twiddles@,
        ));
        assert(self.twiddle_buffers()[key] == twiddles@);
        assert(self.kept_twiddles() =~= old(self).kept_twiddles().insert(
            key,
            self.kept_twiddles()[key],
        ));
        assert(self.kept_twiddles().dom().contains(key));
        self.twiddle_cache.get(&key).unwrap()
    }

    /// The buffer of several layers of twiddles, one after the other, out of a cache of its own if
    /// it is there, and the section of each layer.
    pub fn get_or_create_flat_twiddle_buffer(&mut self, twiddle_layers: &[&[u32]]) -> (r:
        FlatTwiddleBuffer<'_>)
        ensures
            raw(r.buffer@) == flat_twiddles(twiddle_layers@, twiddle_layers@.len()),
            r.sections@.len() == twiddle_layers@.len(),
            forall|i: int|
                0 <= i < twiddle_layers@.len() ==> {
                    &&& (#[trigger] r.sections@[i]).offset == flat_twiddles(
                        twiddle_layers@,
                        i as nat,
                    ).len()
                    &&& r.sections@[i].len == twiddle_layers@[i]@.len()
                },
            *r.buffer == final(self).kept_flat_twiddles()[twiddle_key(
                flat_twiddles(twiddle_layers@, twiddle_layers@.len()),
            )],
            asked_for_flat_twiddles(
                *old(self),
                *final(self),
                flat_twiddles(twiddle_layers@, twiddle_layers@.len()),
            ),
    {
        let (flat, sections) = flatten_twiddles(twiddle_layers);
        let key: u64 = hash_twiddles(flat.as_slice());
        if !keeps(&self.flat_twiddle_cache, flat.as_slice()) {
            self.flat_twiddle_cache.insert(key, Buffer::with_words(flat.as_slice()));
        }
        assert(self.flat_twiddle_buffers() =~= twiddles_cached(
            old(self).flat_twiddle_buffers(),
            flat@,
        ));
        assert(self.flat_twiddle_buffers()[key] == flat@);
        assert(self.kept_flat_twiddles() =~= old(self).kept_flat_twiddles().insert(
            key,
            self.kept_flat_twiddles()[key],
        ));
        assert(self.kept_flat_twiddles().dom().contains(key));
        FlatTwiddleBuffer { buffer: self.flat_twiddle_cache.get(&key).unwrap(), sections }
    }

    /// The buffers of the `x` and `y` coordinates of the points of a domain in bit-reversed
    /// order, out of the cache if those of a domain of this size are kept.
    pub fn get_or_create_domain_xy_buffers(&mut self, domain: CircleDomain) -> (r: (
        &Buffer,
        &Buffer,
    ))
        requires
            domain.fits(),
        ensures
            (raw(r.0@), raw(r.1@)) == final(self).domain_buffers()[domain.spec_log_size() as u32],
            (*r.0, *r.1) == final(self).kept_domains()[domain.spec_log_size() as u32],
            asked_for_domain(*old(self), *final(self), domain),
    {
        let key: u32 = domain.log_size();
        if !self.domain_xy_cache.contains_key(&key) {
            let (xs, ys) = domain_points(domain);
            self.domain_xy_cache.insert(
                key,
                (Buffer::with_words(xs.as_slice()), Buffer::with_words(ys.as_slice())),
            );
        }
        assert(self.domain_buffers() =~= domain_cached(old(self).domain_buffers(), domain));
        assert(self.kept_domains().dom().contains(key));
        assert(self.kept_domains() =~= old(self).kept_domains().insert(
            key,
            self.kept_domains()[key],
        ));
        let (x, y) = self.domain_xy_cache.get(&key).unwrap();
        (x, y)
    }
}

/// A handle to a shared context that is cheap to copy.
pub struct MetalContextHandle<C> {
    inner: Arc<C>,
}

/// Calls `Arc::clone`, which makes another pointer to the same value.
#[verifier::external_body]
fn another_pointer<C>(pointer: &Arc<C>) -> (r: Arc<C>)
    ensures
        r == *pointer,
{
    Arc::clone(pointer)
}

impl<C> MetalContextHandle<C> {
    /// The shared context.
    pub closed spec fn spec_context(&self) -> C {
        *self.inner
    }

    /// A handle to a context.
    pub fn new(inner: Arc<C>) -> (h: MetalContextHandle<C>)
        ensures
            h.spec_context() == *inner,
    {
        MetalContextHandle { inner }
    }

    /// The shared context.
    pub fn context(&self) -> (c: &C)
        ensures
            *c == self.spec_context(),
    {
        &*self.inner
    }
}

impl<C> Clone for MetalContextHandle<C> {
    fn clone(&self) -> (h: MetalContextHandle<C>)
        ensures
            h.spec_context() == self.spec_context(),
    {
        MetalContextHandle { inner: another_pointer(&self.inner) }
    }
}

} // verus!
