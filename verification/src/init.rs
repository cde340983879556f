//! Bringing up a context: finding the device, compiling the shader library and its pipelines.
//!
//! Whoever can reach the device asks for the next [`InitAction`], performs it and reports what
//! happened with an [`InitEvent`]. The first failure ends the initialization with a message.
use crate::gpu::Kernel;
use vstd::prelude::*;

verus! {

/// The kernels that a context compiles, in this order.
pub open spec fn pipeline_order() -> Seq<Kernel> {
    seq![
        Kernel::FftRadix8,
        Kernel::IfftRadix8,
        Kernel::FftRadix2,
        Kernel::IfftRadix2,
        Kernel::FftVecwiseFused,
        Kernel::IfftNormalize,
        Kernel::FriFoldCircle,
        Kernel::FriFoldLine,
        Kernel::Quotient,
        Kernel::Merkle,
        Kernel::MleFoldM31,
        Kernel::MleFoldQm31,
        Kernel::Grind,
        Kernel::PackCoordsToQm31,
        Kernel::UnpackQm31ToCoords,
    ]
}

/// The place of a kernel in the order of compilation, if it is compiled.
pub open spec fn pipeline_index(kernel: Kernel) -> Option<int> {
    match kernel {
        Kernel::FftRadix8 => Some(0),
        Kernel::IfftRadix8 => Some(1),
        Kernel::FftRadix2 => Some(2),
        Kernel::IfftRadix2 => Some(3),
        Kernel::FftVecwiseFused => Some(4),
        Kernel::IfftNormalize => Some(5),
        Kernel::FriFoldCircle => Some(6),
        Kernel::FriFoldLine => Some(7),
        Kernel::Quotient => Some(8),
        Kernel::Merkle => Some(9),
        Kernel::MleFoldM31 => Some(10),
        Kernel::MleFoldQm31 => Some(11),
        Kernel::Grind => Some(12),
        Kernel::PackCoordsToQm31 => Some(13),
        Kernel::UnpackQm31ToCoords => Some(14),
        Kernel::MerkleLeaf => None,
    }
}

/// A kernel is compiled at its place and nowhere else, or not at all.
pub proof fn law_pipeline_order(kernel: Kernel, i: int)
    requires
        0 <= i < pipeline_order().len(),
    ensures
        pipeline_order().len() == 15,
        pipeline_order()[i] == kernel <==> pipeline_index(kernel) == Some(i),
{
}

/// The name of the function of a kernel in the shader library.
pub open spec fn kernel_function(kernel: Kernel) -> Seq<char> {
    match kernel {
        Kernel::FftRadix8 => "circle_fft_radix8"@,
        Kernel::IfftRadix8 => "circle_ifft_radix8"@,
        Kernel::FftRadix2 => "circle_fft_radix2"@,
        Kernel::IfftRadix2 => "circle_ifft_radix2"@,
        Kernel::FftVecwiseFused => "circle_fft_vecwise_fused"@,
        Kernel::IfftNormalize => "ifft_normalize_m31"@,
        Kernel::FriFoldCircle => "fri_fold_circle_into_line"@,
        Kernel::FriFoldLine => "fri_fold_line"@,
        Kernel::Quotient => "quotient_accumulate"@,
        Kernel::Merkle => "merkle_blake2s"@,
        Kernel::MleFoldM31 => "mle_fold_m31_to_qm31"@,
        Kernel::MleFoldQm31 => "mle_fold_qm31_to_qm31"@,
        Kernel::Grind => "grind_pow"@,
        Kernel::PackCoordsToQm31 => "pack_coords_to_qm31"@,
        Kernel::UnpackQm31ToCoords => "unpack_qm31_to_coords"@,
        Kernel::MerkleLeaf => ""@,
    }
}

/// The kernels that a context compiles, in this order.
pub fn pipeline_kernels() -> (r: [Kernel; 15])
    ensures
        r@ == pipeline_order(),
{
    [
        Kernel::FftRadix8,
        Kernel::IfftRadix8,
        Kernel::FftRadix2,
        Kernel::IfftRadix2,
        Kernel::FftVecwiseFused,
        Kernel::IfftNormalize,
        Kernel::FriFoldCircle,
        Kernel::FriFoldLine,
        Kernel::Quotient,
        Kernel::Merkle,
        Kernel::MleFoldM31,
        Kernel::MleFoldQm31,
        Kernel::Grind,
        Kernel::PackCoordsToQm31,
        Kernel::UnpackQm31ToCoords,
    ]
}

/// The name of the function of a kernel in the shader library; `None` for a kernel that a
/// context does not compile.
pub fn function_name(kernel: Kernel) -> (name: Option<&'static str>)
    ensures
        name is Some <==> pipeline_index(kernel) is Some,
        name matches Some(n) ==> n@ == kernel_function(kernel),
{
    match kernel {
        Kernel::FftRadix8 => Some("circle_fft_radix8"),
        Kernel::IfftRadix8 => Some("circle_ifft_radix8"),
        Kernel::FftRadix2 => Some("circle_fft_radix2"),
        Kernel::IfftRadix2 => Some("circle_ifft_radix2"),
        Kernel::FftVecwiseFused => Some("circle_fft_vecwise_fused"),
        Kernel::IfftNormalize => Some("ifft_normalize_m31"),
        Kernel::FriFoldCircle => Some("fri_fold_circle_into_line"),
        Kernel::FriFoldLine => Some("fri_fold_line"),
        Kernel::Quotient => Some("quotient_accumulate"),
        Kernel::Merkle => Some("merkle_blake2s"),
        Kernel::MleFoldM31 => Some("mle_fold_m31_to_qm31"),
        Kernel::MleFoldQm31 => Some("mle_fold_qm31_to_qm31"),
        Kernel::Grind => Some("grind_pow"),
        Kernel::PackCoordsToQm31 => Some("pack_coords_to_qm31"),
        Kernel::UnpackQm31ToCoords => Some("unpack_qm31_to_coords"),
        Kernel::MerkleLeaf => None,
    }
}

/// What is to be done next.
#[derive(Clone, Copy, Debug, PartialEq, Eq, Structural)]
pub enum InitAction {
    /// Find the default device and create a command queue on it.
    FindDevice,
    /// Compile the shader library.
    CompileLibrary { fast_math: bool },
    /// Look the function of a kernel up in the library.
    GetFunction(Kernel),
    /// Create the pipeline of that function.
    CreatePipeline(Kernel),
    /// Nothing: all pipelines are there.
    Finish,
}

/// What happened.
#[derive(Debug)]
pub enum InitEvent<P> {
    /// Whether there is a device.
    Device(bool),
    /// The library has been compiled, or the compiler's error.
    Library(Result<(), String>),
    /// The function has been found, or the error.
    Function(Result<(), String>),
    /// The pipeline, or the error.
    Pipeline(Result<P, String>),
}

/// How far the initialization has come.
#[derive(Clone, Copy, Debug, PartialEq, Eq, Structural)]
pub enum InitStage {
    Device,
    Library,
    Function,
    Pipeline,
    Finished,
}

/// An initialization under way.
#[derive(Debug)]
pub struct ContextInit<P> {
    metal_debug: bool,
    stage: InitStage,
    pipelines: Vec<P>,
}

/// The value of a [`ContextInit`].
#[verifier::ext_equal]
pub struct InitSpec<P> {
    pub metal_debug: bool,
    pub stage: InitStage,
    pub pipelines: Seq<P>,
}

impl<P> View for ContextInit<P> {
    type V = InitSpec<P>;

    closed spec fn view(&self) -> InitSpec<P> {
        InitSpec {
            metal_debug: self.metal_debug,
            stage: self.stage,
            pipelines: self.pipelines@,
        }
    }
}

impl<P> InitSpec<P> {
    /// While functions are looked up and pipelines created some are missing, at the end none.
    pub open spec fn wf(self) -> bool {
        match self.stage {
            InitStage::Device => self.pipelines.len() == 0,
            InitStage::Library => self.pipelines.len() == 0,
            InitStage::Function => self.pipelines.len() < pipeline_order().len(),
            InitStage::Pipeline => self.pipelines.len() < pipeline_order().len(),
            InitStage::Finished => self.pipelines.len() == pipeline_order().len(),
        }
    }

    /// The kernel whose turn it is.
    pub open spec fn kernel(self) -> Kernel {
        pipeline_order()[self.pipelines.len() as int]
    }

    /// What is to be done next.
    pub open spec fn action(self) -> InitAction {
        match self.stage {
            InitStage::Device => InitAction::FindDevice,
            InitStage::Library => InitAction::CompileLibrary { fast_math: !self.metal_debug },
            InitStage::Function => InitAction::GetFunction(self.kernel()),
            InitStage::Pipeline => InitAction::CreatePipeline(self.kernel()),
            InitStage::Finished => InitAction::Finish,
        }
    }

    /// The event reports on what is to be done next.
    pub open spec fn expects(self, event: InitEvent<P>) -> bool {
        match event {
            InitEvent::Device(_) => self.stage == InitStage::Device,
            InitEvent::Library(_) => self.stage == InitStage::Library,
            InitEvent::Function(_) => self.stage == InitStage::Function,
            InitEvent::Pipeline(_) => self.stage == InitStage::Pipeline,
        }
    }

    /// The state after an event, or the message that the initialization ends with.
    pub open spec fn after(self, event: InitEvent<P>) -> Result<InitSpec<P>, Seq<char>> {
        match event {
            InitEvent::Device(true) => Ok(InitSpec { stage: InitStage::Library, ..self }),
            InitEvent::Device(false) => Err("No Metal device found"@),
            InitEvent::Library(Ok(())) => Ok(InitSpec { stage: InitStage::Function, ..self }),
            InitEvent::Library(Err(e)) => Err("Failed to compile Metal shaders: "@ + e@),
            InitEvent::Function(Ok(())) => Ok(InitSpec { stage: InitStage::Pipeline, ..self }),
            InitEvent::Function(Err(e)) => Err(
                "Failed to get function '"@ + kernel_function(self.kernel()) + "': "@ + e@,
            ),
            InitEvent::Pipeline(Ok(p)) => Ok(
                InitSpec {
                    stage: if self.pipelines.len() + 1 < pipeline_order().len() {
                        InitStage::Function
                    } else {
                        InitStage::Finished
                    },
                    pipelines: self.pipelines.push(p),
                    ..self
                },
            ),
            InitEvent::Pipeline(Err(e)) => Err(
                "Failed to create pipeline for '"@ + kernel_function(self.kernel()) + "': "@ + e@,
            ),
        }
    }
}

/// The state before anything has been done.
pub open spec fn init_start<P>(metal_debug: bool) -> InitSpec<P> {
    InitSpec { metal_debug, stage: InitStage::Device, pipelines: Seq::empty() }
}

/// `start`, then `middle`, then `end`, in one string.
fn joined(start: &str, middle: &str, between: &str, end: &str) -> (s: String)
    ensures
        s@ == start@ + middle@ + between@ + end@,
{
    let mut s: String = String::new();
    s.append(start);
    s.append(middle);
    s.append(between);
    s.append(end);
    assert(s@ =~= start@ + middle@ + between@ + end@);
    s
}

impl<P> ContextInit<P> {
    /// The stage and the number of pipelines belong together.
    #[verifier::type_invariant]
    spec fn inv(self) -> bool {
        self@.wf()
    }

    /// An initialization that has not done anything yet. Debug builds of the shaders do without
    /// fast math.
    pub fn new(metal_debug: bool) -> (s: ContextInit<P>)
        ensures
            s@ == init_start::<P>(metal_debug),
    {
        ContextInit { metal_debug, stage: InitStage::Device, pipelines: Vec::new() }
    }

    /// What is to be done next.
    pub fn action(&self) -> (a: InitAction)
        ensures
            a == self@.action(),
    {
        proof {
            use_type_invariant(self);
        }
        match self.stage {
            InitStage::Device => InitAction::FindDevice,
            InitStage::Library => InitAction::CompileLibrary { fast_math: !self.metal_debug },
            InitStage::Function => InitAction::GetFunction(
                pipeline_kernels()[self.pipelines.len()],
            ),
            InitStage::Pipeline => InitAction::CreatePipeline(
                pipeline_kernels()[self.pipelines.len()],
            ),
            InitStage::Finished => InitAction::Finish,
        }
    }

    /// Takes note of what happened. On a failure it says why the context cannot be had.
    pub fn advance(self, event: InitEvent<P>) -> (r: Result<ContextInit<P>, String>)
        requires
            self@.expects(event),
        ensures
            match r {
                Ok(next) => self@.after(event) == Ok::<InitSpec<P>, Seq<char>>(next@),
                Err(message) => self@.after(event) == Err::<InitSpec<P>, Seq<char>>(message@),
            },
    {
        proof {
            use_type_invariant(&self);
        }
        let metal_debug: bool = self.metal_debug;
        let mut pipelines: Vec<P> = self.pipelines;
        match event {
            InitEvent::Device(found) => {
                if !found {
                    let message: String = String::from_str("No Metal device found");
                    return Err(message);
                }
                Ok(ContextInit { metal_debug, stage: InitStage::Library, pipelines })
            },
            InitEvent::Library(Ok(())) => {
                Ok(ContextInit { metal_debug, stage: InitStage::Function, pipelines })
            },
            InitEvent::Library(Err(e)) => {
                let message: String = joined(
                    "Failed to compile Metal shaders: ",
                    "",
                    "",
                    e.as_str(),
                );
                proof {
                    reveal_strlit("");
                    assert(message@ =~= "Failed to compile Metal shaders: "@ + e@);
                }
                Err(message)
            },
            InitEvent::Function(Ok(())) => {
                Ok(ContextInit { metal_debug, stage: InitStage::Pipeline, pipelines })
            },
            InitEvent::Function(Err(e)) => {
                let kernel: Kernel = pipeline_kernels()[pipelines.len()];
                let name: &str = function_name(kernel).unwrap();
                Err(joined("Failed to get function '", name, "': ", e.as_str()))
            },
            InitEvent::Pipeline(Ok(pipeline)) => {
                pipelines.push(pipeline);
                let stage: InitStage = if pipelines.len() < pipeline_kernels().len() {
                    InitStage::Function
                } else {
                    InitStage::Finished
                };
                Ok(ContextInit { metal_debug, stage, pipelines })
            },
            InitEvent::Pipeline(Err(e)) => {
                let kernel: Kernel = pipeline_kernels()[pipelines.len()];
                let name: &str = function_name(kernel).unwrap();
                Err(joined("Failed to create pipeline for '", name, "': ", e.as_str()))
            },
        }
    }

    /// The pipelines of a finished initialization.
    pub fn into_pipelines(self) -> (r: [P; 15])
        requires
            self@.stage == InitStage::Finished,
        ensures
            r@ == self@.pipelines,
    {
        proof {
            use_type_invariant(&self);
        }
        let mut v: Vec<P> = self.pipelines;
        let p14: P = v.pop().unwrap();
        let p13: P = v.pop().unwrap();
        let p12: P = v.pop().unwrap();
        let p11: P = v.pop().unwrap();
        let p10: P = v.pop().unwrap();
        let p9: P = v.pop().unwrap();
        let p8: P = v.pop().unwrap();
        let p7: P = v.pop().unwrap();
        let p6: P = v.pop().unwrap();
        let p5: P = v.pop().unwrap();
        let p4: P = v.pop().unwrap();
        let p3: P = v.pop().unwrap();
        let p2: P = v.pop().unwrap();
        let p1: P = v.pop().unwrap();
        let p0: P = v.pop().unwrap();
        let r: [P; 15] = [p0, p1, p2, p3, p4, p5, p6, p7, p8, p9, p10, p11, p12, p13, p14];
        assert(r@ =~= self@.pipelines);
        r
    }
}

/// The state after a sequence of events, or the message of the first failure.
pub open spec fn init_run<P>(s: InitSpec<P>, events: Seq<InitEvent<P>>) -> Result<
    InitSpec<P>,
    Seq<char>,
>
    decreases events.len(),
{
    if events.len() == 0 {
        Ok(s)
    } else {
        match init_run(s, events.drop_last()) {
            Ok(t) => t.after(events.last()),
            Err(message) => Err(message),
        }
    }
}

/// The events of an initialization in which everything up to the first `n` pipelines succeeds.
pub open spec fn success_events<P>(pipelines: Seq<P>, n: nat) -> Seq<InitEvent<P>>
    decreases n,
{
    if n == 0 {
        seq![InitEvent::Device(true), InitEvent::Library(Ok(()))]
    } else {
        success_events(pipelines, (n - 1) as nat).push(InitEvent::Function(Ok(()))).push(
            InitEvent::Pipeline(Ok(pipelines[n - 1])),
        )
    }
}

/// Where everything succeeds, the initialization asks for the kernels in their order, one after
/// the other, and ends with all of their pipelines.
pub proof fn law_init_completes<P>(metal_debug: bool, pipelines: Seq<P>, n: nat)
    requires
        pipelines.len() == pipeline_order().len(),
        n <= pipelines.len(),
    ensures
        ({
            let r = init_run(init_start::<P>(metal_debug), success_events(pipelines, n));
            &&& r is Ok
            &&& r->Ok_0.wf()
            &&& r->Ok_0.pipelines == pipelines.take(n as int)
            &&& r->Ok_0.action() == if n < pipelines.len() {
                InitAction::GetFunction(pipeline_order()[n as int])
            } else {
                InitAction::Finish
            }
        }),
    decreases n,
{
    let start = init_start::<P>(metal_debug);
    let events = success_events(pipelines, n);
    if n == 0 {
        let first: Seq<InitEvent<P>> = seq![InitEvent::Device(true)];
        assert(events.drop_last() =~= first);
        assert(first.drop_last() =~= Seq::empty());
        reveal_with_fuel(init_run, 3);
        assert(pipelines.take(0) =~= Seq::empty());
    } else {
        let p = (n - 1) as nat;
        law_init_completes(metal_debug, pipelines, p);
        let before = success_events(pipelines, p);
        let middle = before.push(InitEvent::Function(Ok(())));
        assert(events.drop_last() =~= middle);
        assert(middle.drop_last() =~= before);
        reveal_with_fuel(init_run, 3);
        assert(pipelines.take(p as int).push(pipelines[p as int]) =~= pipelines.take(n as int));
    }
}

/// The first failure decides: what would have come after it does not matter.
pub proof fn law_first_failure_decides<P>(
    metal_debug: bool,
    events: Seq<InitEvent<P>>,
    more: Seq<InitEvent<P>>,
)
    requires
        init_run(init_start::<P>(metal_debug), events) is Err,
    ensures
        init_run(init_start::<P>(metal_debug), events + more) == init_run(
            init_start::<P>(metal_debug),
            events,
        ),
    decreases more.len(),
{
    if more.len() == 0 {
        assert(events + more =~= events);
    } else {
        law_first_failure_decides(metal_debug, events, more.drop_last());
        assert((events + more).drop_last() =~= events + more.drop_last());
    }
}

} // verus!
