use std::sync::Arc;
use stwo_metal::backend::{Backend, MetalBackend};
use stwo_metal::column::{MetalBaseColumn, MetalSecureColumn};
use stwo_metal::context::{MetalContext, MetalContextHandle};
use stwo_metal::fields::BaseField;
use stwo_metal::init::{ContextInit, InitAction, InitEvent};

type Context = MetalContext<String, u8, u32>;

fn context() -> Context {
    let mut init: ContextInit<u32> = ContextInit::new(false);
    let mut next: u32 = 100;
    while init.action() != InitAction::Finish {
        let event = match init.action() {
            InitAction::FindDevice => InitEvent::Device(true),
            InitAction::CompileLibrary { .. } => InitEvent::Library(Ok(())),
            InitAction::GetFunction(_) => InitEvent::Function(Ok(())),
            InitAction::CreatePipeline(_) => {
                next += 1;
                InitEvent::Pipeline(Ok(next))
            }
            InitAction::Finish => unreachable!(),
        };
        init = init.advance(event).unwrap();
    }
    MetalContext::new(init, String::from("device"), 7)
}

#[test]
fn test_metal_backend_is_usable() {
    type MetalColumn = <MetalBackend as Backend>::BaseColumn;

    let values: Vec<BaseField> = (0..16).map(|i| BaseField::from(i)).collect();

    let col: MetalColumn = MetalColumn::from_iter(values);

    assert_eq!(col.len(), 16);
    assert_eq!(col.at(0), BaseField::from(0));
    assert_eq!(col.at(15), BaseField::from(15));
}

#[test]
fn test_metal_backend_column_operations() {
    type MetalColumn = <MetalBackend as Backend>::BaseColumn;

    let values: Vec<BaseField> = (0..16).map(BaseField::from).collect();
    let col: MetalColumn = MetalColumn::from_iter(values);

    assert_eq!(col.len(), 16);

    let cpu_values = col.to_cpu();
    assert_eq!(cpu_values.len(), 16);
    assert_eq!(cpu_values[0], BaseField::from(0));
    assert_eq!(cpu_values[15], BaseField::from(15));
}

#[test]
fn test_metal_infrastructure_exports() {
    let _backend: Option<MetalBackend> = None;
    let _base_col: Option<MetalBaseColumn> = None;
    let _secure_col: Option<MetalSecureColumn> = None;
    let _ctx: Option<Context> = None;
    let _handle: Option<MetalContextHandle<Context>> = None;
}

#[test]
fn test_metal_context_initialization() {
    let handle = MetalContextHandle::new(Arc::new(context()));
    assert!(handle.context().device().len() > 0);
    assert_eq!(*handle.context().command_queue(), 7);
}

#[test]
fn test_context_is_singleton() {
    let shared = Arc::new(context());
    let handle1 = MetalContextHandle::new(shared.clone());
    let handle2 = MetalContextHandle::new(shared);
    assert!(std::ptr::eq(handle1.context(), handle2.context()));
    assert!(std::ptr::eq(handle1.clone().context(), handle1.context()));
}

#[test]
fn backend_has_no_device_of_its_own() {
    assert!(!MetalBackend::is_available());
}
