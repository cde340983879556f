//! What a context gives back of what it was asked for, and how it comes up.
//!
//! Each law speaks of the results of calls.
use crate::backend::MetalBackend;
use crate::bits::{bit_reverse_index, lemma_bit_reversed_bound};
use crate::buffer::Buffer;
use crate::circle::{CircleDomain, CirclePoint, TwiddleTree};
use crate::context::{
    domain_x, domain_y, flat_twiddles, law_flat_twiddle_sections, law_same_twiddle_buffer,
    twiddle_key, FlatTwiddleBuffer, MetalContext, MetalContextHandle,
};
use crate::evaluation::{LineEvaluation, SecureEvaluation};
use crate::fields::{SecureField, M31};
use crate::fold_laws::lemma_parts;
use crate::fri::{FoldCirclePlan, FoldLinePlan};
use crate::gpu::{Allocation, Kernel, Submission};
use crate::init::{
    function_name, law_pipeline_order, pipeline_kernels, ContextInit, InitAction, InitEvent,
};
use std::collections::hash_map::DefaultHasher;
use std::sync::Arc;
use vstd::arithmetic::power2::*;
use vstd::bytes::*;
use vstd::prelude::*;
use vstd::std_specs::hash::*;

verus! {

/// A new context holds no twiddles and the handles and pipelines that it was made of.
pub proof fn law_new_context<D, Q, P>(
    init: ContextInit<P>,
    device: D,
    queue: Q,
    pipelines: [P; 15],
    context: MetalContext<D, Q, P>,
    the_device: &D,
    the_queue: &Q,
    twiddles: &[u32],
    held: bool,
    kernels: [Kernel; 15],
    i: int,
    pipeline: Option<&P>,
)
    requires
        call_ensures(MetalContext::<D, Q, P>::new, (init, device, queue), context),
        call_ensures(ContextInit::<P>::into_pipelines, (init,), pipelines),
        call_ensures(MetalContext::<D, Q, P>::device, (&context,), the_device),
        call_ensures(MetalContext::<D, Q, P>::command_queue, (&context,), the_queue),
        call_ensures(MetalContext::<D, Q, P>::has_twiddle_buffer, (&context, twiddles), held),
        call_ensures(pipeline_kernels, (), kernels),
        0 <= i < 15,
        call_ensures(MetalContext::<D, Q, P>::pipeline, (&context, kernels@[i]), pipeline),
    ensures
        *the_device == device,
        *the_queue == queue,
        !held,
        pipeline matches Some(p) && *p == pipelines@[i],
{
    law_pipeline_order(kernels@[i], i);
}

/// The pipeline of a kernel is `p`.
pub open spec fn has_pipeline<D, Q, P>(
    context: MetalContext<D, Q, P>,
    kernel: Kernel,
    p: Option<&P>,
) -> bool {
    call_ensures(MetalContext::<D, Q, P>::pipeline, (&context, kernel), p)
}

/// The pipelines that have a name of their own are those of their kernels.
pub proof fn law_named_pipelines<D, Q, P>(context: MetalContext<D, Q, P>, p: &P, q: Option<&P>)
    ensures
        call_ensures(MetalContext::<D, Q, P>::fft_radix8_pipeline, (&context,), p)
            && has_pipeline(context, Kernel::FftRadix8, q) ==> q == Some(p),
        call_ensures(MetalContext::<D, Q, P>::ifft_radix8_pipeline, (&context,), p)
            && has_pipeline(context, Kernel::IfftRadix8, q) ==> q == Some(p),
        call_ensures(MetalContext::<D, Q, P>::fft_radix2_pipeline, (&context,), p)
            && has_pipeline(context, Kernel::FftRadix2, q) ==> q == Some(p),
        call_ensures(MetalContext::<D, Q, P>::ifft_radix2_pipeline, (&context,), p)
            && has_pipeline(context, Kernel::IfftRadix2, q) ==> q == Some(p),
        call_ensures(MetalContext::<D, Q, P>::fft_vecwise_fused_pipeline, (&context,), p)
            && has_pipeline(context, Kernel::FftVecwiseFused, q) ==> q == Some(p),
        call_ensures(MetalContext::<D, Q, P>::ifft_normalize_pipeline, (&context,), p)
            && has_pipeline(context, Kernel::IfftNormalize, q) ==> q == Some(p),
        call_ensures(MetalContext::<D, Q, P>::fri_fold_circle_pipeline, (&context,), p)
            && has_pipeline(context, Kernel::FriFoldCircle, q) ==> q == Some(p),
        call_ensures(MetalContext::<D, Q, P>::fri_fold_line_pipeline, (&context,), p)
            && has_pipeline(context, Kernel::FriFoldLine, q) ==> q == Some(p),
        call_ensures(MetalContext::<D, Q, P>::quotient_pipeline, (&context,), p)
            && has_pipeline(context, Kernel::Quotient, q) ==> q == Some(p),
        call_ensures(MetalContext::<D, Q, P>::merkle_pipeline, (&context,), p)
            && has_pipeline(context, Kernel::Merkle, q) ==> q == Some(p),
        call_ensures(MetalContext::<D, Q, P>::mle_fold_m31_pipeline, (&context,), p)
            && has_pipeline(context, Kernel::MleFoldM31, q) ==> q == Some(p),
        call_ensures(MetalContext::<D, Q, P>::mle_fold_qm31_pipeline, (&context,), p)
            && has_pipeline(context, Kernel::MleFoldQm31, q) ==> q == Some(p),
        call_ensures(MetalContext::<D, Q, P>::grind_pipeline, (&context,), p)
            && has_pipeline(context, Kernel::Grind, q) ==> q == Some(p),
        call_ensures(MetalContext::<D, Q, P>::pack_coords_to_qm31_pipeline, (&context,), p)
            && has_pipeline(context, Kernel::PackCoordsToQm31, q) ==> q == Some(p),
        call_ensures(MetalContext::<D, Q, P>::unpack_qm31_to_coords_pipeline, (&context,), p)
            && has_pipeline(context, Kernel::UnpackQm31ToCoords, q) ==> q == Some(p),
        has_pipeline(context, Kernel::MerkleLeaf, q) ==> q is None,
{
}

/// The buffer of twiddles holds exactly these; afterwards the context holds it, and keeps its
/// device.
pub proof fn law_twiddle_buffer<D, Q, P>(
    context: &mut MetalContext<D, Q, P>,
    twiddles: &[u32],
    buffer: &Buffer,
    words: Vec<u32>,
    held: bool,
    before: &D,
    after: &D,
)
    requires
        call_ensures(
            MetalContext::<D, Q, P>::get_or_create_twiddle_buffer,
            (context, twiddles),
            buffer,
        ),
        call_ensures(Buffer::to_words, (buffer,), words),
        call_ensures(
            MetalContext::<D, Q, P>::has_twiddle_buffer,
            (&*final(context), twiddles),
            held,
        ),
        call_ensures(MetalContext::<D, Q, P>::device, (&*old(context),), before),
        call_ensures(MetalContext::<D, Q, P>::device, (&*final(context),), after),
    ensures
        words@ == twiddles@,
        held,
        *after == *before,
{
}

/// Asking again for the same twiddles gives the same buffer and changes nothing.
pub proof fn law_twiddle_buffer_again<D, Q, P>(
    context: &mut MetalContext<D, Q, P>,
    again: &mut MetalContext<D, Q, P>,
    twiddles: &[u32],
    buffer: &Buffer,
    second: &Buffer,
)
    requires
        call_ensures(
            MetalContext::<D, Q, P>::get_or_create_twiddle_buffer,
            (context, twiddles),
            buffer,
        ),
        *old(again) == *final(context),
        call_ensures(
            MetalContext::<D, Q, P>::get_or_create_twiddle_buffer,
            (again, twiddles),
            second,
        ),
    ensures
        *second == *buffer,
        *final(again) == *old(again),
{
    law_same_twiddle_buffer(*old(context), *final(context), *final(again), twiddles@);
}

/// Asking for twiddles keeps others that a context holds, unless they have the same key.
pub proof fn law_other_twiddles_are_kept<D, Q, P>(
    context: &mut MetalContext<D, Q, P>,
    twiddles: &[u32],
    buffer: &Buffer,
    other: &[u32],
    before: bool,
    after: bool,
)
    requires
        call_ensures(
            MetalContext::<D, Q, P>::get_or_create_twiddle_buffer,
            (context, twiddles),
            buffer,
        ),
        twiddle_key(other@) != twiddle_key(twiddles@),
        call_ensures(
            MetalContext::<D, Q, P>::has_twiddle_buffer,
            (&*old(context), other),
            before,
        ),
        call_ensures(
            MetalContext::<D, Q, P>::has_twiddle_buffer,
            (&*final(context), other),
            after,
        ),
    ensures
        after == before,
{
}

/// Asking for the points of a domain or for several layers in one buffer changes nothing about the
/// twiddles that a context holds.
pub proof fn law_caches_are_apart<D, Q, P>(
    context: &mut MetalContext<D, Q, P>,
    layers: &[&[u32]],
    flat: FlatTwiddleBuffer<'_>,
    next: &mut MetalContext<D, Q, P>,
    domain: CircleDomain,
    buffers: (&Buffer, &Buffer),
    other: &[u32],
    before: bool,
    after: bool,
)
    requires
        call_ensures(
            MetalContext::<D, Q, P>::get_or_create_flat_twiddle_buffer,
            (context, layers),
            flat,
        ),
        *old(next) == *final(context),
        call_ensures(
            MetalContext::<D, Q, P>::get_or_create_domain_xy_buffers,
            (next, domain),
            buffers,
        ),
        call_ensures(
            MetalContext::<D, Q, P>::has_twiddle_buffer,
            (&*old(context), other),
            before,
        ),
        call_ensures(
            MetalContext::<D, Q, P>::has_twiddle_buffer,
            (&*final(next), other),
            after,
        ),
    ensures
        after == before,
{
}

/// Layers of twiddles in one buffer: they lie one behind the other without gaps, and word `j` of
/// layer `i` is at `j` words behind the start of its section.
pub proof fn law_flat_buffer<D, Q, P>(
    context: &mut MetalContext<D, Q, P>,
    layers: &[&[u32]],
    flat: FlatTwiddleBuffer<'_>,
    words: Vec<u32>,
    i: int,
    j: int,
)
    requires
        call_ensures(
            MetalContext::<D, Q, P>::get_or_create_flat_twiddle_buffer,
            (context, layers),
            flat,
        ),
        call_ensures(Buffer::to_words, (flat.buffer,), words),
        0 <= i < layers@.len(),
    ensures
        flat.sections@.len() == layers@.len(),
        flat.sections@[0].offset == 0,
        flat.sections@[i].len == layers@[i]@.len(),
        i + 1 < layers@.len() ==> flat.sections@[i + 1].offset == flat.sections@[i].offset
            + flat.sections@[i].len,
        i + 1 == layers@.len() ==> words@.len() == flat.sections@[i].offset
            + flat.sections@[i].len,
        0 <= j < layers@[i]@.len() ==> words@[flat.sections@[i].offset + j] == layers@[i]@[j],
{
    let n = layers@.len();
    assert(flat.sections@[0].offset == flat_twiddles(layers@, 0).len());
    assert(flat.sections@[i].offset == flat_twiddles(layers@, i as nat).len());
    law_flat_twiddle_sections(layers@, i as nat, n);
    if i + 1 < n {
        assert(flat.sections@[i + 1].offset == flat_twiddles(layers@, (i + 1) as nat).len());
    }
    if 0 <= j < layers@[i]@.len() {
        let start = flat_twiddles(layers@, i as nat).len() as int;
        let section = words@.subrange(start, start + layers@[i]@.len());
        assert(section[j] == words@[start + j]);
    }
}

/// The buffers of the points of a domain whose size a context was not asked for before: the point
/// whose index is the reversal of `i` stands at `i`.
pub proof fn law_domain_buffers<D, Q, P>(
    context: &mut MetalContext<D, Q, P>,
    domain: CircleDomain,
    buffers: (&Buffer, &Buffer),
    xs: Vec<u32>,
    ys: Vec<u32>,
    points: Vec<CirclePoint<M31>>,
    log_size: u32,
    i: usize,
    r: usize,
)
    requires
        domain.fits(),
        !old(context).domain_buffers().dom().contains((domain.half_coset.log_size + 1) as u32),
        call_ensures(
            MetalContext::<D, Q, P>::get_or_create_domain_xy_buffers,
            (context, domain),
            buffers,
        ),
        call_ensures(Buffer::to_words, (buffers.0,), xs),
        call_ensures(Buffer::to_words, (buffers.1,), ys),
        call_ensures(CircleDomain::points, (&domain,), points),
        call_ensures(CircleDomain::log_size, (&domain,), log_size),
        i < points@.len(),
        call_ensures(bit_reverse_index, (i, log_size), r),
    ensures
        xs@.len() == points@.len(),
        ys@.len() == points@.len(),
        xs@[i as int] == points@[r as int].x.0,
        ys@[i as int] == points@[r as int].y.0,
{
    lemma_bit_reversed_bound(i as nat, log_size as nat);
    assert(xs@ == domain_x(domain));
    assert(ys@ == domain_y(domain));
}

/// A second domain of the same size gets the same buffers, and nothing changes.
pub proof fn law_domain_buffers_again<D, Q, P>(
    context: &mut MetalContext<D, Q, P>,
    again: &mut MetalContext<D, Q, P>,
    domain: CircleDomain,
    other: CircleDomain,
    buffers: (&Buffer, &Buffer),
    second: (&Buffer, &Buffer),
)
    requires
        domain.half_coset.log_size == other.half_coset.log_size,
        call_ensures(
            MetalContext::<D, Q, P>::get_or_create_domain_xy_buffers,
            (context, domain),
            buffers,
        ),
        *old(again) == *final(context),
        call_ensures(
            MetalContext::<D, Q, P>::get_or_create_domain_xy_buffers,
            (again, other),
            second,
        ),
    ensures
        *second.0 == *buffers.0,
        *second.1 == *buffers.1,
        *final(again) == *old(again),
{
    let size = domain.spec_log_size() as u32;
    assert(final(context).domain_buffers().dom().contains(size));
}

/// The key of twiddles of which there are several: the hash of how many they are and of the first,
/// the middle and the last of them.
pub open spec fn is_key_of(key: u64, words: Seq<u32>) -> bool {
    words.len() >= 2 ==> key == DefaultHasher::spec_finish(
        seq![
            spec_u64_to_le_bytes(words.len() as u64),
            spec_u32_to_le_bytes(words[0]),
            spec_u32_to_le_bytes(words[words.len() as int / 2]),
            spec_u32_to_le_bytes(words[words.len() - 1]),
        ],
    )
}

/// The twiddles of the folding of a line are marked as cached exactly where the context held them
/// before, and afterwards it holds them.
pub proof fn law_fold_line_cache<'a, D, Q, P>(
    context: &mut MetalContext<D, Q, P>,
    eval: LineEvaluation<MetalBackend>,
    alpha: SecureField,
    twiddles: &'a TwiddleTree,
    s: Submission,
    handed: &[u32],
    before: bool,
    after: bool,
)
    requires
        call_ensures(
            MetalBackend::fold_line::<D, Q, P>,
            (context, &eval, alpha, twiddles),
            FoldLinePlan::Gpu(s),
        ),
        s.buffers@[2] matches Allocation::Twiddles { words, .. } && handed@ == words@,
        call_ensures(
            MetalContext::<D, Q, P>::has_twiddle_buffer,
            (&*old(context), handed),
            before,
        ),
        call_ensures(
            MetalContext::<D, Q, P>::has_twiddle_buffer,
            (&*final(context), handed),
            after,
        ),
    ensures
        s.buffers@[2] matches Allocation::Twiddles { key, words, cached } && cached == before
            && is_key_of(key, words@),
        after,
{
    lemma_parts(s, 2, 0, 0);
}

/// The twiddles of the folding of a circle are marked as cached exactly where the context held them
/// before, and afterwards it holds them.
pub proof fn law_fold_circle_cache<'a, D, Q, P>(
    context: &mut MetalContext<D, Q, P>,
    dst: LineEvaluation<MetalBackend>,
    src: SecureEvaluation<MetalBackend>,
    alpha: SecureField,
    twiddles: &'a TwiddleTree,
    s: Submission,
    handed: &[u32],
    before: bool,
    after: bool,
)
    requires
        call_ensures(
            MetalBackend::fold_circle_into_line::<D, Q, P>,
            (context, &dst, &src, alpha, twiddles),
            FoldCirclePlan::Gpu(s),
        ),
        s.buffers@[2] matches Allocation::Twiddles { words, .. } && handed@ == words@,
        call_ensures(
            MetalContext::<D, Q, P>::has_twiddle_buffer,
            (&*old(context), handed),
            before,
        ),
        call_ensures(
            MetalContext::<D, Q, P>::has_twiddle_buffer,
            (&*final(context), handed),
            after,
        ),
    ensures
        s.buffers@[2] matches Allocation::Twiddles { key, words, cached } && cached == before
            && is_key_of(key, words@),
        after,
{
    lemma_parts(s, 2, 0, 0);
}

/// An initialization starts by looking for a device.
pub proof fn law_init_starts<P>(metal_debug: bool, init: ContextInit<P>, action: InitAction)
    requires
        call_ensures(ContextInit::<P>::new, (metal_debug,), init),
        call_ensures(ContextInit::<P>::action, (&init,), action),
    ensures
        action == InitAction::FindDevice,
        init@.metal_debug == metal_debug,
        init@.pipelines.len() == 0,
{
}

/// What is to be done after a success: compile the library, in debug builds without fast math,
/// then look up the function of each kernel in turn and create its pipeline, which is kept.
pub proof fn law_init_continues<P>(
    init: ContextInit<P>,
    action: InitAction,
    event: InitEvent<P>,
    next: ContextInit<P>,
    next_action: InitAction,
    kernels: [Kernel; 15],
)
    requires
        call_ensures(ContextInit::<P>::action, (&init,), action),
        init@.wf(),
        init@.expects(event),
        call_ensures(ContextInit::<P>::advance, (init, event), Ok(next)),
        call_ensures(ContextInit::<P>::action, (&next,), next_action),
        call_ensures(pipeline_kernels, (), kernels),
    ensures
        next@.metal_debug == init@.metal_debug,
        action == InitAction::FindDevice ==> event == InitEvent::<P>::Device(true) && next_action
            == (InitAction::CompileLibrary { fast_math: !init@.metal_debug }),
        action is CompileLibrary ==> next_action == InitAction::GetFunction(kernels@[0]),
        action matches InitAction::GetFunction(kernel) ==> next_action
            == InitAction::CreatePipeline(kernel),
        action matches InitAction::CreatePipeline(kernel) ==> {
            let made = next@.pipelines.len() as int;
            &&& event matches InitEvent::Pipeline(Ok(p)) && next@.pipelines
                == init@.pipelines.push(p)
            &&& kernel == kernels@[made - 1]
            &&& next_action == if made < 15 {
                InitAction::GetFunction(kernels@[made])
            } else {
                InitAction::Finish
            }
        },
        !(action is CreatePipeline) ==> next@.pipelines == init@.pipelines,
        action != InitAction::Finish,
{
}

/// A failure ends the initialization with a message that says what failed, and for a function or a
/// pipeline whose it is.
pub proof fn law_init_fails<P>(
    init: ContextInit<P>,
    action: InitAction,
    event: InitEvent<P>,
    message: String,
    kernel: Kernel,
    name: Option<&'static str>,
)
    requires
        call_ensures(ContextInit::<P>::action, (&init,), action),
        init@.wf(),
        init@.expects(event),
        call_ensures(ContextInit::<P>::advance, (init, event), Err(message)),
        action == InitAction::GetFunction(kernel) || action == InitAction::CreatePipeline(kernel),
        call_ensures(function_name, (kernel,), name),
    ensures
        action is GetFunction ==> (event matches InitEvent::Function(Err(e)) && message@
            == "Failed to get function '"@ + name->0@ + "': "@ + e@),
        action is CreatePipeline ==> (event matches InitEvent::Pipeline(Err(e)) && message@
            == "Failed to create pipeline for '"@ + name->0@ + "': "@ + e@),
{
    law_pipeline_order(kernel, init@.pipelines.len() as int);
}

/// Without a device or a library there is no context, and the message says so.
pub proof fn law_init_fails_early<P>(
    init: ContextInit<P>,
    action: InitAction,
    event: InitEvent<P>,
    message: String,
)
    requires
        call_ensures(ContextInit::<P>::action, (&init,), action),
        init@.expects(event),
        call_ensures(ContextInit::<P>::advance, (init, event), Err(message)),
    ensures
        action is FindDevice ==> event == InitEvent::<P>::Device(false) && message@
            == "No Metal device found"@,
        action is CompileLibrary ==> (event matches InitEvent::Library(Err(e)) && message@
            == "Failed to compile Metal shaders: "@ + e@),
{
}

/// A handle and its copies lead to the context that they were made of.
pub proof fn law_handle<C>(
    shared: Arc<C>,
    handle: MetalContextHandle<C>,
    copy: MetalContextHandle<C>,
    context: &C,
    copied: &C,
)
    requires
        call_ensures(MetalContextHandle::<C>::new, (shared,), handle),
        call_ensures(<MetalContextHandle<C> as Clone>::clone, (&handle,), copy),
        call_ensures(MetalContextHandle::<C>::context, (&handle,), context),
        call_ensures(MetalContextHandle::<C>::context, (&copy,), copied),
    ensures
        *context == *shared,
        *copied == *shared,
{
}

} // verus!
