use vstd::pervasive::cloned;
use vstd::prelude::*;

verus! {

/// Failures of a render pipeline.
#[derive(Debug, Clone, Copy, PartialEq, Eq, Structural)]
pub enum RenderError {
    /// A program, buffer or texture could not be created.
    ResourceCreation,
    /// The attachments of a destination do not form a valid target.
    SurfaceValidation,
    /// A draw call was refused.
    Draw,
    /// The finished frame could not be presented.
    Presentation,
}

/// A destination obtained for one frame: a surface to draw on, and what
/// downstream stages may read once drawing is done.
pub trait SurfaceInstance<Surface, Output>: Sized {
    /// Whether `o` is what this destination hands on once drawing is done.
    /// An implementation that does not state it claims nothing.
    open spec fn outputs(&self, o: Output) -> bool {
        true
    }

    /// Drawing on the surface leaves what the destination hands on alone.
    fn surface(&mut self) -> (r: &mut Surface)
        ensures
            forall|o: Output| #[trigger] old(self).outputs(o) == final(self).outputs(o),
    ;

    fn output(self) -> (r: Output)
        ensures
            self.outputs(r),
    ;
}

impl<Surface, Output> SurfaceInstance<Surface, Output> for (Surface, Output) {
    /// The second half of the pair is handed on.
    open spec fn outputs(&self, o: Output) -> bool {
        o == self.1
    }

    fn surface(&mut self) -> (r: &mut Surface) {
        &mut self.0
    }

    fn output(self) -> (r: Output) {
        self.1
    }
}

/// Owner of a stage's render destination.
pub trait SurfaceProvider<'provider, Ctx>: Sized {
    type Surface;
    type Output;
    type Target: SurfaceInstance<Self::Surface, Self::Output>;

    /// Whether a call of `get` on `self` may leave the provider as `after`
    /// and return `r`. An implementation that does not state it claims
    /// nothing.
    open spec fn provides(&self, after: Self, r: Result<Self::Target, RenderError>) -> bool {
        true
    }

    /// Whether building a provider for `ctx` may give `r`. An implementation
    /// that does not state it claims nothing.
    open spec fn made(ctx: &Ctx, r: Result<Self, RenderError>) -> bool {
        true
    }

    fn new(ctx: &Ctx) -> (r: Result<Self, RenderError>)
        ensures
            Self::made(ctx, r),
    ;

    fn get(&'provider mut self, ctx: &'provider Ctx) -> (r: Result<Self::Target, RenderError>)
        ensures
            old(self).provides(*final(self), r),
    ;
}

/// One render stage: its program and buffers, drawing into whatever surface
/// its provider supplies.
pub trait Pass<'pass, Ctx, Provider: SurfaceProvider<'pass, Ctx>>: Sized {
    type Input;

    /// Whether drawing `input` with `self` may leave the stage as `after`
    /// and return `r`. An implementation that does not state it claims
    /// nothing.
    open spec fn draws(&self, input: Self::Input, after: Self, r: Result<(), RenderError>) -> bool {
        true
    }

    /// Whether building the stage for `ctx` around `provider` may give `r`.
    /// An implementation that does not state it claims nothing.
    open spec fn built(ctx: &Ctx, provider: Provider, r: Result<PassGroup<Self, Provider>, RenderError>) -> bool {
        true
    }

    fn with_provider(ctx: &Ctx, provider: Provider) -> (r: Result<PassGroup<Self, Provider>, RenderError>)
        ensures
            Self::built(ctx, provider, r),
    ;

    fn process<'surface>(
        &'pass mut self,
        ctx: &'surface Ctx,
        surface: &'surface mut Provider::Surface,
        input: Self::Input,
    ) -> (r: Result<(), RenderError>)
        ensures
            old(self).draws(input, *final(self), r),
    ;
}

/// Anything that turns an input into an output once per frame.
///
/// The relations of these traits (`provides`, `draws`, `processed`,
/// `outputs`, `made`, `built`) hold of anything unless an implementation
/// states them. Stages and providers that keep the defaults, such as the
/// GPU stages of a program built on this library, are described by nothing
/// here; what is then stated of a composed pipeline is only how it sequences
/// them.
pub trait ProcessPass<'pass, Ctx, Input>: Sized {
    type Output;

    /// Whether processing `input` with `self` may leave it as `after` and
    /// return `out`. An implementation that does not state it claims nothing.
    open spec fn processed(&self, input: Input, after: Self, out: Result<Self::Output, RenderError>) -> bool {
        true
    }

    fn process(&'pass mut self, ctx: &'pass Ctx, input: Input) -> (r: Result<Self::Output, RenderError>)
        ensures
            old(self).processed(input, *final(self), r),
    ;
}

/// A stage bound to the provider of its destination.
pub struct PassGroup<ThisPass, Provider> {
    pub pass: ThisPass,
    pub provider: Provider,
}

impl<ThisPass, Provider> PassGroup<ThisPass, Provider> {
    pub fn new(pass: ThisPass, provider: Provider) -> (r: Self)
        ensures
            r.pass == pass,
            r.provider == provider,
    {
        PassGroup { pass, provider }
    }

    /// Builds the provider for `ctx`, then the stage around that provider; a
    /// provider that cannot be built is the error, and the stage is then not
    /// built.
    pub fn create<'pass, Ctx>(ctx: &Ctx) -> (r: Result<Self, RenderError>) where
        ThisPass: Pass<'pass, Ctx, Provider>,
        Provider: SurfaceProvider<'pass, Ctx>,

        ensures
            match r {
                Ok(g) => exists|p: Provider|
                    #[trigger] Provider::made(ctx, Ok(p)) && ThisPass::built(ctx, p, Ok(g)),
                Err(e) => Provider::made(ctx, Err(e)) || exists|p: Provider|
                    #[trigger] Provider::made(ctx, Ok(p)) && ThisPass::built(ctx, p, Err(e)),
            },
    {
        let provider = Provider::new(ctx)?;
        ThisPass::with_provider(ctx, provider)
    }
}

impl<'pass, Ctx, ThisPass, Provider> ProcessPass<'pass, Ctx, ThisPass::Input> for PassGroup<
    ThisPass,
    Provider,
> where ThisPass: Pass<'pass, Ctx, Provider>, Provider: SurfaceProvider<'pass, Ctx> {
    type Output = Provider::Output;

    /// The provider is asked for a destination once; when it gives one, the
    /// stage draws into it once, and the output is what that destination
    /// hands on. The provider's own state afterwards is left open: the
    /// destination may still borrow it.
    open spec fn processed(
        &self,
        input: ThisPass::Input,
        after: Self,
        out: Result<Provider::Output, RenderError>,
    ) -> bool {
        match out {
            Err(e) => {
                ||| ((exists|p: Provider| #[trigger] self.provider.provides(p, Err(e)))
                    && after.pass == self.pass)
                ||| ((exists|p: Provider, t: Provider::Target|
                    #[trigger] self.provider.provides(p, Ok(t))) && self.pass.draws(
                    input,
                    after.pass,
                    Err(e),
                ))
            },
            Ok(o) => (exists|p: Provider, t: Provider::Target|
                #[trigger] self.provider.provides(p, Ok(t)) && t.outputs(o)) && self.pass.draws(
                input,
                after.pass,
                Ok(()),
            ),
        }
    }

    fn process(&'pass mut self, ctx: &'pass Ctx, input: ThisPass::Input) -> (r: Result<
        Provider::Output,
        RenderError,
    >) {
        let ghost start = *self;
        let ghost fin = *final(self);
        let got = self.provider.get(ctx);
        match got {
            Err(e) => {
                assert(fin.pass == start.pass);
                Err(e)
            },
            Ok(mut out) => {
                let ghost t = out;
                let drawn = self.pass.process(ctx, out.surface(), input);
                assert(start.pass.draws(input, fin.pass, drawn));
                match drawn {
                    Err(e) => Err(e),
                    Ok(u) => {
                        assert(drawn == Ok::<(), RenderError>(()));
                        let o = out.output();
                        assert(t.outputs(o));
                        Ok(o)
                    },
                }
            },
        }
    }
}

/// Two processing steps run one after the other: the output of the first
/// is the input of the second.
pub struct PassChain<A, B>(pub A, pub B);

impl<'pass, Ctx, I, A, B> ProcessPass<'pass, Ctx, I> for PassChain<A, B> where
    A: ProcessPass<'pass, Ctx, I>,
    B: ProcessPass<'pass, Ctx, A::Output>,
 {
    type Output = B::Output;

    /// The first step runs on the input; the second runs on its output
    /// when it succeeds and is left untouched when it fails.
    open spec fn processed(&self, input: I, after: Self, out: Result<B::Output, RenderError>) -> bool {
        exists|mid: Result<A::Output, RenderError>|
            #[trigger] self.0.processed(input, after.0, mid) && match mid {
                Ok(m) => self.1.processed(m, after.1, out),
                Err(e) => out == Err::<B::Output, RenderError>(e) && after.1 == self.1,
            }
    }

    fn process(&'pass mut self, ctx: &'pass Ctx, input: I) -> (r: Result<B::Output, RenderError>) {
        let ghost start = *self;
        let ghost fin = *final(self);
        let mid = self.0.process(ctx, input);
        match mid {
            Ok(m) => {
                let r = self.1.process(ctx, m);
                assert(start.0.processed(input, fin.0, mid));
                assert(start.1.processed(m, fin.1, r));
                r
            },
            Err(e) => {
                assert(start.0.processed(input, fin.0, mid));
                assert(fin.1 == start.1);
                Err(e)
            },
        }
    }
}

/// A processing step whose input is a pair: the frame's input and a fixed
/// value handed along with it each time.
pub struct PassWith<A, T>(pub A, pub T) where T: Clone;

impl<'pass, Ctx, I, A, T> ProcessPass<'pass, Ctx, I> for PassWith<A, T> where
    A: ProcessPass<'pass, Ctx, (I, T)>,
    T: Clone,
 {
    type Output = A::Output;

    /// The step runs on the input paired with a clone of the fixed value,
    /// which itself stays as it was.
    open spec fn processed(&self, input: I, after: Self, out: Result<A::Output, RenderError>) -> bool {
        &&& after.1 == self.1
        &&& exists|c: T| cloned(self.1, c) && #[trigger] self.0.processed((input, c), after.0, out)
    }

    fn process(&'pass mut self, ctx: &'pass Ctx, input: I) -> (r: Result<A::Output, RenderError>) {
        let ghost start = *self;
        let ghost fin = *final(self);
        let c = self.1.clone();
        let r = self.0.process(ctx, (input, c));
        assert(fin.1 == start.1);
        assert(start.0.processed((input, c), fin.0, r));
        r
    }
}

/// Sequencing of a processing step with a second one that takes its output.
pub trait ChainablePass<'pass, Ctx, I, Rhs>: ProcessPass<'pass, Ctx, I> where
    Rhs: ProcessPass<'pass, Ctx, Self::Output>,
 {
    fn chain(self, rhs: Rhs) -> (r: PassChain<Self, Rhs>)
        ensures
            r.0 == self,
            r.1 == rhs,
    ;
}

impl<'pass, Ctx, I, T, Rhs> ChainablePass<'pass, Ctx, I, Rhs> for T where
    T: ProcessPass<'pass, Ctx, I>,
    Rhs: ProcessPass<'pass, Ctx, T::Output>,
 {
    fn chain(self, rhs: Rhs) -> (r: PassChain<Self, Rhs>) {
        PassChain(self, rhs)
    }
}

/// Binding of a fixed side value to a processing step that takes pairs.
pub trait WithPass<'pass, Ctx, I, T>: ProcessPass<'pass, Ctx, (I, T)> where T: Clone {
    fn with(self, rhs: T) -> (r: PassWith<Self, T>)
        ensures
            r.0 == self,
            r.1 == rhs,
    ;
}

impl<'pass, Ctx, I, T, X> WithPass<'pass, Ctx, I, T> for X where
    X: ProcessPass<'pass, Ctx, (I, T)>,
    T: Clone,
 {
    fn with(self, rhs: T) -> (r: PassWith<Self, T>) {
        PassWith(self, rhs)
    }
}

/// Running a chain is running its first step on the input and, when that
/// succeeds, its second step on what the first one returned; a failure of
/// the first step is the chain's failure.
pub proof fn lemma_chain_process<'pass, Ctx, I, A, B>(
    a: A,
    b: B,
    x: I,
    a2: A,
    b2: B,
    out: Result<B::Output, RenderError>,
) where A: ProcessPass<'pass, Ctx, I>, B: ProcessPass<'pass, Ctx, A::Output>
    ensures
        <PassChain<A, B> as ProcessPass<'pass, Ctx, I>>::processed(&PassChain(a, b), x, PassChain(a2, b2), out)
            <==> exists|mid: Result<A::Output, RenderError>|
            #[trigger] a.processed(x, a2, mid) && match mid {
                Ok(m) => b.processed(m, b2, out),
                Err(e) => out == Err::<B::Output, RenderError>(e) && b2 == b,
            },
{
    let c = PassChain(a, b);
    let after = PassChain(a2, b2);
    assert(c.0 == a && c.1 == b && after.0 == a2 && after.1 == b2);
}

/// Chaining is associative: grouping three steps as `(a, b), c` or as
/// `a, (b, c)` gives the same outcomes and leaves the steps in the same
/// states.
pub proof fn lemma_chain_associative<'pass, Ctx, I, A, B, C>(
    a: A,
    b: B,
    c: C,
    x: I,
    a2: A,
    b2: B,
    c2: C,
    out: Result<C::Output, RenderError>,
) where
    A: ProcessPass<'pass, Ctx, I>,
    B: ProcessPass<'pass, Ctx, A::Output>,
    C: ProcessPass<'pass, Ctx, B::Output>,

    ensures
        <PassChain<PassChain<A, B>, C> as ProcessPass<'pass, Ctx, I>>::processed(
            &PassChain(PassChain(a, b), c),
            x,
            PassChain(PassChain(a2, b2), c2),
            out,
        ) <==> <PassChain<A, PassChain<B, C>> as ProcessPass<'pass, Ctx, I>>::processed(
            &PassChain(a, PassChain(b, c)),
            x,
            PassChain(a2, PassChain(b2, c2)),
            out,
        ),
{
    let ab = PassChain(a, b);
    let bc = PassChain(b, c);
    let ab2 = PassChain(a2, b2);
    let bc2 = PassChain(b2, c2);
    let left = PassChain(ab, c);
    let right = PassChain(a, bc);
    let left2 = PassChain(ab2, c2);
    let right2 = PassChain(a2, bc2);
    if <PassChain<PassChain<A, B>, C> as ProcessPass<'pass, Ctx, I>>::processed(&left, x, left2, out) {
        let mid1 = choose|mid1: Result<B::Output, RenderError>|
            #[trigger] <PassChain<A, B> as ProcessPass<'pass, Ctx, I>>::processed(&ab, x, ab2, mid1) && match mid1 {
                Ok(m) => c.processed(m, c2, out),
                Err(e) => out == Err::<C::Output, RenderError>(e) && c2 == c,
            };
        let mid0 = choose|mid0: Result<A::Output, RenderError>|
            #[trigger] a.processed(x, a2, mid0) && match mid0 {
                Ok(m) => b.processed(m, b2, mid1),
                Err(e) => mid1 == Err::<B::Output, RenderError>(e) && b2 == b,
            };
        assert(<PassChain<A, B> as ProcessPass<'pass, Ctx, I>>::processed(&ab, x, ab2, mid1));
        assert(a.processed(x, a2, mid0));
        match mid0 {
            Ok(m0) => {
                assert(b.processed(m0, b2, mid1));
                assert(bc.0 == b && bc2.0 == b2 && bc.1 == c && bc2.1 == c2);
                assert(<PassChain<B, C> as ProcessPass<'pass, Ctx, A::Output>>::processed(&bc, m0, bc2, out));
            },
            Err(e) => {
                assert(mid1 == Err::<B::Output, RenderError>(e) && b2 == b);
                assert(out == Err::<C::Output, RenderError>(e) && c2 == c);
                assert(bc2 == bc);
            },
        }
        assert(right.0 == a && right2.0 == a2 && right.1 == bc && right2.1 == bc2);
        assert(a.processed(x, a2, mid0));
        assert(<PassChain<A, PassChain<B, C>> as ProcessPass<'pass, Ctx, I>>::processed(&right, x, right2, out));
    }
    if <PassChain<A, PassChain<B, C>> as ProcessPass<'pass, Ctx, I>>::processed(&right, x, right2, out) {
        let mid0 = choose|mid0: Result<A::Output, RenderError>|
            #[trigger] a.processed(x, a2, mid0) && match mid0 {
                Ok(m) => <PassChain<B, C> as ProcessPass<'pass, Ctx, A::Output>>::processed(&bc, m, bc2, out),
                Err(e) => out == Err::<C::Output, RenderError>(e) && bc2 == bc,
            };
        assert(a.processed(x, a2, mid0));
        assert(ab.0 == a && ab2.0 == a2 && ab.1 == b && ab2.1 == b2);
        assert(left.0 == ab && left2.0 == ab2 && left.1 == c && left2.1 == c2);
        match mid0 {
            Ok(m0) => {
                assert(bc.0 == b && bc2.0 == b2 && bc.1 == c && bc2.1 == c2);
                let mid1 = choose|mid1: Result<B::Output, RenderError>|
                    #[trigger] b.processed(m0, b2, mid1) && match mid1 {
                        Ok(m) => c.processed(m, c2, out),
                        Err(e) => out == Err::<C::Output, RenderError>(e) && c2 == c,
                    };
                assert(b.processed(m0, b2, mid1));
                assert(<PassChain<A, B> as ProcessPass<'pass, Ctx, I>>::processed(&ab, x, ab2, mid1));
            },
            Err(e) => {
                assert(bc2 == bc);
                let mid1 = Err::<B::Output, RenderError>(e);
                assert(<PassChain<A, B> as ProcessPass<'pass, Ctx, I>>::processed(&ab, x, ab2, mid1));
            },
        }
        assert(<PassChain<PassChain<A, B>, C> as ProcessPass<'pass, Ctx, I>>::processed(&left, x, left2, out));
    }
}

} // verus!
