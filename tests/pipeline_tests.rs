use std::cell::Cell;

use voxel_pipeline::pipeline::{
    ChainablePass, Pass, PassChain, PassGroup, PassWith, ProcessPass, RenderError, SurfaceProvider,
    WithPass,
};
use voxel_pipeline::postprocess::{BlurPass, PostProcessVertex, StrengthenPass};
use voxel_pipeline::provider::ResizingTarget;

struct AddOne {
    calls: u32,
}

impl<'pass> ProcessPass<'pass, (), u32> for AddOne {
    type Output = u64;

    fn process(&'pass mut self, _ctx: &'pass (), input: u32) -> Result<u64, RenderError> {
        self.calls += 1;
        Ok(input as u64 + 1)
    }
}

struct Double;

impl<'pass> ProcessPass<'pass, (), u64> for Double {
    type Output = u64;

    fn process(&'pass mut self, _ctx: &'pass (), input: u64) -> Result<u64, RenderError> {
        if input > 1000 {
            Err(RenderError::Draw)
        } else {
            Ok(input * 2)
        }
    }
}

struct Scale;

impl<'pass> ProcessPass<'pass, (), (u64, u64)> for Scale {
    type Output = u64;

    fn process(&'pass mut self, _ctx: &'pass (), input: (u64, u64)) -> Result<u64, RenderError> {
        Ok(input.0 * input.1)
    }
}

struct Fails;

impl<'pass> ProcessPass<'pass, (), u32> for Fails {
    type Output = u64;

    fn process(&'pass mut self, _ctx: &'pass (), _input: u32) -> Result<u64, RenderError> {
        Err(RenderError::SurfaceValidation)
    }
}

#[test]
fn chain_runs_left_then_right() {
    let mut chain = AddOne { calls: 0 }.chain(Double);
    assert_eq!(chain.process(&(), 4), Ok(10));
    let mut a = AddOne { calls: 0 };
    let mut b = Double;
    let mid = a.process(&(), 4).unwrap();
    assert_eq!(b.process(&(), mid), Ok(10));
    assert_eq!(chain.process(&(), 2000), Err(RenderError::Draw));
    assert_eq!(chain.0.calls, 2);
}

#[test]
fn chain_stops_at_first_failure() {
    let mut chain = PassChain(Fails, Double);
    assert_eq!(chain.process(&(), 1), Err(RenderError::SurfaceValidation));
}

#[test]
fn chain_is_associative_on_values() {
    let mut left = PassChain(PassChain(AddOne { calls: 0 }, Double), Double);
    let mut right = PassChain(AddOne { calls: 0 }, PassChain(Double, Double));
    for x in [0u32, 3, 200, 400] {
        assert_eq!(left.process(&(), x), right.process(&(), x));
    }
}

#[test]
fn with_hands_the_fixed_value_along() {
    let mut with = Scale.with(7u64);
    assert_eq!(with.process(&(), 6), Ok(42));
    assert_eq!(with.process(&(), 2), Ok(14));
    let mut direct = PassWith(Scale, 3u64);
    assert_eq!(direct.process(&(), 5), Ok(15));
    assert_eq!(direct.1, 3);
}

#[test]
fn refresh_keeps_resource_while_resolution_is_unchanged() {
    let made = Cell::new(0u32);
    let mut t = ResizingTarget::new((640, 480), 1u32);
    let r = t.refresh((640, 480), |_| {
        made.set(made.get() + 1);
        Ok(99)
    });
    assert_eq!(r, Ok(()));
    assert_eq!(made.get(), 0);
    assert_eq!(*t.resource(), 1);
    assert_eq!(t.dimensions(), (640, 480));
}

#[test]
fn refresh_recreates_once_on_resize() {
    let made = Cell::new(0u32);
    let mut t = ResizingTarget::new((640, 480), 1u32);
    let r = t.refresh((800, 600), |d| {
        made.set(made.get() + 1);
        Ok(d.0 + d.1)
    });
    assert_eq!(r, Ok(()));
    assert_eq!(made.get(), 1);
    assert_eq!(*t.resource(), 1400);
    assert_eq!(t.dimensions(), (800, 600));
    let r = t.refresh((800, 600), |_| {
        made.set(made.get() + 1);
        Ok(0)
    });
    assert_eq!(r, Ok(()));
    assert_eq!(made.get(), 1);
    assert_eq!(*t.resource(), 1400);
}

#[test]
fn failed_recreation_changes_nothing() {
    let mut t = ResizingTarget::new((640, 480), 1u32);
    let r = t.refresh((1, 1), |_| Err(RenderError::ResourceCreation));
    assert_eq!(r, Err(RenderError::ResourceCreation));
    assert_eq!(t.dimensions(), (640, 480));
    assert_eq!(*t.resource(), 1);
}

#[test]
fn quad_corners_and_effect_parameters() {
    let quad = PostProcessVertex::get();
    let ids: Vec<u32> = quad.iter().map(|v| v.id).collect();
    assert_eq!(ids, vec![0, 1, 2, 3]);
    assert_eq!(BlurPass::<true>::direction(), (1, 1));
    assert_eq!(BlurPass::<false>::direction(), (1, -1));
    assert_eq!(StrengthenPass::thresholds(), (-10, 38));
}

struct CountingProvider {
    frames: u32,
}

impl<'provider> SurfaceProvider<'provider, bool> for CountingProvider {
    type Surface = Vec<u32>;
    type Output = u32;
    type Target = (Vec<u32>, u32);

    fn new(ctx: &bool) -> Result<Self, RenderError> {
        if *ctx {
            Ok(CountingProvider { frames: 0 })
        } else {
            Err(RenderError::ResourceCreation)
        }
    }

    fn get(&'provider mut self, _ctx: &'provider bool) -> Result<(Vec<u32>, u32), RenderError> {
        self.frames += 1;
        Ok((Vec::new(), self.frames))
    }
}

struct Recorder {
    drawn: Vec<u32>,
}

impl<'pass> Pass<'pass, bool, CountingProvider> for Recorder {
    type Input = u32;

    fn with_provider(
        _ctx: &bool,
        provider: CountingProvider,
    ) -> Result<PassGroup<Self, CountingProvider>, RenderError> {
        Ok(PassGroup::new(Recorder { drawn: Vec::new() }, provider))
    }

    fn process<'surface>(
        &'pass mut self,
        _ctx: &'surface bool,
        surface: &'surface mut Vec<u32>,
        input: u32,
    ) -> Result<(), RenderError> {
        if input == 0 {
            return Err(RenderError::Draw);
        }
        surface.push(input);
        self.drawn.push(input);
        Ok(())
    }
}

#[test]
fn create_builds_provider_then_stage() {
    let failed = PassGroup::<Recorder, CountingProvider>::create(&false);
    assert_eq!(failed.err(), Some(RenderError::ResourceCreation));
    let mut group = PassGroup::<Recorder, CountingProvider>::create(&true).unwrap();
    assert_eq!(group.provider.frames, 0);
    assert_eq!(group.process(&true, 7), Ok(1));
    assert_eq!(group.process(&true, 0), Err(RenderError::Draw));
    assert_eq!(group.process(&true, 9), Ok(3));
    assert_eq!(group.pass.drawn, vec![7, 9]);
}
