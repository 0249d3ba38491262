use super::{System, SystemArg};
use crate::scene::Scene;
use std::marker::PhantomData;
use vstd::prelude::*;

verus! {

/// A function that can be run on a scene: each of its arguments is made
/// from the scene. Functions of up to ten arguments are such functions.
pub trait SystemFn<Args> {
    /// Whether the function can be called on whatever arguments it is
    /// handed.
    spec fn total(&self) -> bool;

    /// Makes each argument from `scene`, the first one first, and calls the
    /// function on them.
    fn call_on(&self, scene: &Scene)
        requires
            scene.inv(),
            self.total(),
    ;
}

impl<F> SystemFn<()> for F where F: Fn() {
    open spec fn total(&self) -> bool {
        call_requires(*self, ())
    }

    fn call_on(&self, scene: &Scene) {
        self();
    }
}

impl<F, Arg0> SystemFn<(Arg0)> for F where F: Fn(Arg0), Arg0: SystemArg {
    open spec fn total(&self) -> bool {
        forall|arg0: Arg0| #[trigger] call_requires(*self, (arg0,))
    }

    fn call_on(&self, scene: &Scene) {
        let arg0 = Arg0::from_scene(scene);
        assert(call_requires(*self, (arg0,)));
        self(arg0);
    }
}

impl<F, Arg0, Arg1> SystemFn<(Arg0, Arg1)> for F where
    F: Fn(Arg0, Arg1),
    Arg0: SystemArg,
    Arg1: SystemArg,
{
    open spec fn total(&self) -> bool {
        forall|arg0: Arg0, arg1: Arg1| #[trigger] call_requires(*self, (arg0, arg1))
    }

    fn call_on(&self, scene: &Scene) {
        let arg0 = Arg0::from_scene(scene);
        let arg1 = Arg1::from_scene(scene);
        assert(call_requires(*self, (arg0, arg1)));
        self(arg0, arg1);
    }
}

impl<F, Arg0, Arg1, Arg2> SystemFn<(Arg0, Arg1, Arg2)> for F where
    F: Fn(Arg0, Arg1, Arg2),
    Arg0: SystemArg,
    Arg1: SystemArg,
    Arg2: SystemArg,
{
    open spec fn total(&self) -> bool {
        forall|
            arg0: Arg0,
            arg1: Arg1,
            arg2: Arg2,
        | #[trigger] call_requires(*self, (arg0, arg1, arg2))
    }

    fn call_on(&self, scene: &Scene) {
        let arg0 = Arg0::from_scene(scene);
        let arg1 = Arg1::from_scene(scene);
        let arg2 = Arg2::from_scene(scene);
        assert(call_requires(*self, (arg0, arg1, arg2)));
        self(arg0, arg1, arg2);
    }
}

impl<F, Arg0, Arg1, Arg2, Arg3> SystemFn<(Arg0, Arg1, Arg2, Arg3)> for F where
    F: Fn(Arg0, Arg1, Arg2, Arg3),
    Arg0: SystemArg,
    Arg1: SystemArg,
    Arg2: SystemArg,
    Arg3: SystemArg,
{
    open spec fn total(&self) -> bool {
        forall|
            arg0: Arg0,
            arg1: Arg1,
            arg2: Arg2,
            arg3: Arg3,
        | #[trigger] call_requires(*self, (arg0, arg1, arg2, arg3))
    }

    fn call_on(&self, scene: &Scene) {
        let arg0 = Arg0::from_scene(scene);
        let arg1 = Arg1::from_scene(scene);
        let arg2 = Arg2::from_scene(scene);
        let arg3 = Arg3::from_scene(scene);
        assert(call_requires(*self, (arg0, arg1, arg2, arg3)));
        self(arg0, arg1, arg2, arg3);
    }
}

impl<F, Arg0, Arg1, Arg2, Arg3, Arg4> SystemFn<(Arg0, Arg1, Arg2, Arg3, Arg4)> for F where
    F: Fn(Arg0, Arg1, Arg2, Arg3, Arg4),
    Arg0: SystemArg,
    Arg1: SystemArg,
    Arg2: SystemArg,
    Arg3: SystemArg,
    Arg4: SystemArg,
{
    open spec fn total(&self) -> bool {
        forall|
            arg0: Arg0,
            arg1: Arg1,
            arg2: Arg2,
            arg3: Arg3,
            arg4: Arg4,
        | #[trigger] call_requires(*self, (arg0, arg1, arg2, arg3, arg4))
    }

    fn call_on(&self, scene: &Scene) {
        let arg0 = Arg0::from_scene(scene);
        let arg1 = Arg1::from_scene(scene);
        let arg2 = Arg2::from_scene(scene);
        let arg3 = Arg3::from_scene(scene);
        let arg4 = Arg4::from_scene(scene);
        assert(call_requires(*self, (arg0, arg1, arg2, arg3, arg4)));
        self(arg0, arg1, arg2, arg3, arg4);
    }
}

impl<F, Arg0, Arg1, Arg2, Arg3, Arg4, Arg5> SystemFn<(Arg0, Arg1, Arg2, Arg3, Arg4, Arg5)> for F where
    F: Fn(Arg0, Arg1, Arg2, Arg3, Arg4, Arg5),
    Arg0: SystemArg,
    Arg1: SystemArg,
    Arg2: SystemArg,
    Arg3: SystemArg,
    Arg4: SystemArg,
    Arg5: SystemArg,
{
    open spec fn total(&self) -> bool {
        forall|
            arg0: Arg0,
            arg1: Arg1,
            arg2: Arg2,
            arg3: Arg3,
            arg4: Arg4,
            arg5: Arg5,
        | #[trigger] call_requires(*self, (arg0, arg1, arg2, arg3, arg4, arg5))
    }

    fn call_on(&self, scene: &Scene) {
        let arg0 = Arg0::from_scene(scene);
        let arg1 = Arg1::from_scene(scene);
        let arg2 = Arg2::from_scene(scene);
        let arg3 = Arg3::from_scene(scene);
        let arg4 = Arg4::from_scene(scene);
        let arg5 = Arg5::from_scene(scene);
        assert(call_requires(*self, (arg0, arg1, arg2, arg3, arg4, arg5)));
        self(arg0, arg1, arg2, arg3, arg4, arg5);
    }
}

impl<F, Arg0, Arg1, Arg2, Arg3, Arg4, Arg5, Arg6> SystemFn<(Arg0, Arg1, Arg2, Arg3, Arg4, Arg5, Arg6)> for F where
    F: Fn(Arg0, Arg1, Arg2, Arg3, Arg4, Arg5, Arg6),
    Arg0: SystemArg,
    Arg1: SystemArg,
    Arg2: SystemArg,
    Arg3: SystemArg,
    Arg4: SystemArg,
    Arg5: SystemArg,
    Arg6: SystemArg,
{
    open spec fn total(&self) -> bool {
        forall|
            arg0: Arg0,
            arg1: Arg1,
            arg2: Arg2,
            arg3: Arg3,
            arg4: Arg4,
            arg5: Arg5,
            arg6: Arg6,
        | #[trigger] call_requires(*self, (arg0, arg1, arg2, arg3, arg4, arg5, arg6))
    }

    fn call_on(&self, scene: &Scene) {
        let arg0 = Arg0::from_scene(scene);
        let arg1 = Arg1::from_scene(scene);
        let arg2 = Arg2::from_scene(scene);
        let arg3 = Arg3::from_scene(scene);
        let arg4 = Arg4::from_scene(scene);
        let arg5 = Arg5::from_scene(scene);
        let arg6 = Arg6::from_scene(scene);
        assert(call_requires(*self, (arg0, arg1, arg2, arg3, arg4, arg5, arg6)));
        self(arg0, arg1, arg2, arg3, arg4, arg5, arg6);
    }
}

impl<F, Arg0, Arg1, Arg2, Arg3, Arg4, Arg5, Arg6, Arg7> SystemFn<(Arg0, Arg1, Arg2, Arg3, Arg4, Arg5, Arg6, Arg7)> for F where
    F: Fn(Arg0, Arg1, Arg2, Arg3, Arg4, Arg5, Arg6, Arg7),
    Arg0: SystemArg,
    Arg1: SystemArg,
    Arg2: SystemArg,
    Arg3: SystemArg,
    Arg4: SystemArg,
    Arg5: SystemArg,
    Arg6: SystemArg,
    Arg7: SystemArg,
{
    open spec fn total(&self) -> bool {
        forall|
            arg0: Arg0,
            arg1: Arg1,
            arg2: Arg2,
            arg3: Arg3,
            arg4: Arg4,
            arg5: Arg5,
            arg6: Arg6,
            arg7: Arg7,
        | #[trigger] call_requires(*self, (arg0, arg1, arg2, arg3, arg4, arg5, arg6, arg7))
    }

    fn call_on(&self, scene: &Scene) {
        let arg0 = Arg0::from_scene(scene);
        let arg1 = Arg1::from_scene(scene);
        let arg2 = Arg2::from_scene(scene);
        let arg3 = Arg3::from_scene(scene);
        let arg4 = Arg4::from_scene(scene);
        let arg5 = Arg5::from_scene(scene);
        let arg6 = Arg6::from_scene(scene);
        let arg7 = Arg7::from_scene(scene);
        assert(call_requires(*self, (arg0, arg1, arg2, arg3, arg4, arg5, arg6, arg7)));
        self(arg0, arg1, arg2, arg3, arg4, arg5, arg6, arg7);
    }
}

impl<F, Arg0, Arg1, Arg2, Arg3, Arg4, Arg5, Arg6, Arg7, Arg8> SystemFn<(Arg0, Arg1, Arg2, Arg3, Arg4, Arg5, Arg6, Arg7, Arg8)> for F where
    F: Fn(Arg0, Arg1, Arg2, Arg3, Arg4, Arg5, Arg6, Arg7, Arg8),
    Arg0: SystemArg,
    Arg1: SystemArg,
    Arg2: SystemArg,
    Arg3: SystemArg,
    Arg4: SystemArg,
    Arg5: SystemArg,
    Arg6: SystemArg,
    Arg7: SystemArg,
    Arg8: SystemArg,
{
    open spec fn total(&self) -> bool {
        forall|
            arg0: Arg0,
            arg1: Arg1,
            arg2: Arg2,
            arg3: Arg3,
            arg4: Arg4,
            arg5: Arg5,
            arg6: Arg6,
            arg7: Arg7,
            arg8: Arg8,
        | #[trigger] call_requires(*self, (arg0, arg1, arg2, arg3, arg4, arg5, arg6, arg7, arg8))
    }

    fn call_on(&self, scene: &Scene) {
        let arg0 = Arg0::from_scene(scene);
        let arg1 = Arg1::from_scene(scene);
        let arg2 = Arg2::from_scene(scene);
        let arg3 = Arg3::from_scene(scene);
        let arg4 = Arg4::from_scene(scene);
        let arg5 = Arg5::from_scene(scene);
        let arg6 = Arg6::from_scene(scene);
        let arg7 = Arg7::from_scene(scene);
        let arg8 = Arg8::from_scene(scene);
        assert(call_requires(*self, (arg0, arg1, arg2, arg3, arg4, arg5, arg6, arg7, arg8)));
        self(arg0, arg1, arg2, arg3, arg4, arg5, arg6, arg7, arg8);
    }
}

impl<F, Arg0, Arg1, Arg2, Arg3, Arg4, Arg5, Arg6, Arg7, Arg8, Arg9> SystemFn<(Arg0, Arg1, Arg2, Arg3, Arg4, Arg5, Arg6, Arg7, Arg8, Arg9)> for F where
    F: Fn(Arg0, Arg1, Arg2, Arg3, Arg4, Arg5, Arg6, Arg7, Arg8, Arg9),
    Arg0: SystemArg,
    Arg1: SystemArg,
    Arg2: SystemArg,
    Arg3: SystemArg,
    Arg4: SystemArg,
    Arg5: SystemArg,
    Arg6: SystemArg,
    Arg7: SystemArg,
    Arg8: SystemArg,
    Arg9: SystemArg,
{
    open spec fn total(&self) -> bool {
        forall|
            arg0: Arg0,
            arg1: Arg1,
            arg2: Arg2,
            arg3: Arg3,
            arg4: Arg4,
            arg5: Arg5,
            arg6: Arg6,
            arg7: Arg7,
            arg8: Arg8,
            arg9: Arg9,
        | #[trigger] call_requires(*self, (arg0, arg1, arg2, arg3, arg4, arg5, arg6, arg7, arg8, arg9))
    }

    fn call_on(&self, scene: &Scene) {
        let arg0 = Arg0::from_scene(scene);
        let arg1 = Arg1::from_scene(scene);
        let arg2 = Arg2::from_scene(scene);
        let arg3 = Arg3::from_scene(scene);
        let arg4 = Arg4::from_scene(scene);
        let arg5 = Arg5::from_scene(scene);
        let arg6 = Arg6::from_scene(scene);
        let arg7 = Arg7::from_scene(scene);
        let arg8 = Arg8::from_scene(scene);
        let arg9 = Arg9::from_scene(scene);
        assert(call_requires(*self, (arg0, arg1, arg2, arg3, arg4, arg5, arg6, arg7, arg8, arg9)));
        self(arg0, arg1, arg2, arg3, arg4, arg5, arg6, arg7, arg8, arg9);
    }
}

/// A function as a system.
pub struct SystemFunction<F: SystemFn<Args>, Args> {
    function: F,
    args: PhantomData<Args>,
}

impl<F: SystemFn<Args>, Args> SystemFunction<F, Args> {
    /// A system function holds a function that can be called on whatever
    /// arguments it is handed.
    #[verifier::type_invariant]
    spec fn callable(self) -> bool {
        self.function.total()
    }

    /// The function that is run.
    pub closed spec fn function(&self) -> F {
        self.function
    }

    /// The system that runs `function`.
    pub fn new(function: F) -> (system: Self)
        requires
            function.total(),
        ensures
            system.function() == function,
    {
        Self { function, args: PhantomData }
    }
}

impl<F: SystemFn<Args>, Args> System for SystemFunction<F, Args> {
    fn run(&self, scene: &Scene) {
        proof {
            use_type_invariant(self);
        }
        self.function.call_on(scene);
    }
}

} // verus!
