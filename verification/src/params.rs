//! Parameter snapshots and their patches.
//!
//! The control thread publishes what the simulator found as patches; the
//! audio thread applies them to the snapshot it holds. The payloads are
//! type parameters: positions `V`, direct-path parameters `D`,
//! reflection parameters `R` and the listener's frame `L` are carried and
//! never looked into.

use vstd::prelude::*;
use vstd::std_specs::cmp::PartialEqSpec;

verus! {

/// A patch could not be made from an event, or does not fit the
/// parameters it is meant for.
#[derive(Clone, Copy, Debug, PartialEq, Eq, Structural)]
pub enum PatchError {
    /// The path names no field.
    InvalidPath,
    /// The data is not of the kind that the field holds.
    InvalidData,
    /// The patch changes a part of a snapshot that the parameters do not
    /// hold.
    Mismatch,
}

/// What one pass of the simulator found for one source.
pub struct SimulationOutputs<D, R> {
    pub direct: D,
    pub reflections: R,
}

/// The parameters of a source node.
pub struct SourceParams<V, D, R> {
    pub source_position: V,
    pub listener_position: V,
    pub simulation_outputs: Option<SimulationOutputs<D, R>>,
    pub reverb_effect_params: Option<R>,
}

/// One change of the parameters of a source node.
pub enum SourcePatch<V, D, R> {
    SourcePosition(V),
    ListenerPosition(V),
    /// The simulation outputs as a whole: they appear, go, or are replaced.
    SimulationOutputs(Option<SimulationOutputs<D, R>>),
    /// The direct part of the simulation outputs that are there.
    Direct(D),
    /// The reflections part of the simulation outputs that are there.
    Reflections(R),
    ReverbEffectParams(Option<R>),
}

/// What an event for a source node can carry.
pub enum SourceData<V, D, R> {
    Position(V),
    Outputs(Option<SimulationOutputs<D, R>>),
    Direct(D),
    Reflections(R),
    Reverb(Option<R>),
}

/// The index of `source_position` in the paths of events.
pub const PATH_SOURCE_POSITION: u32 = 0;

/// The index of `listener_position` in the paths of events.
pub const PATH_LISTENER_POSITION: u32 = 1;

/// The index of `simulation_outputs` in the paths of events.
pub const PATH_SIMULATION_OUTPUTS: u32 = 2;

/// The index of `reverb_effect_params` in the paths of events.
pub const PATH_REVERB_EFFECT_PARAMS: u32 = 3;

/// The index of `direct` within the simulation outputs.
pub const PATH_DIRECT: u32 = 0;

/// The index of `reflections` within the simulation outputs.
pub const PATH_REFLECTIONS: u32 = 1;

impl<V, D, R> SourceParams<V, D, R> {
    /// `patch` fits the parameters: a patch for a part of the simulation
    /// outputs needs simulation outputs to be there.
    pub open spec fn fits(self, patch: SourcePatch<V, D, R>) -> bool {
        match patch {
            SourcePatch::Direct(_) => self.simulation_outputs is Some,
            SourcePatch::Reflections(_) => self.simulation_outputs is Some,
            _ => true,
        }
    }

    /// The parameters after `patch`: what the patch names holds the
    /// patch's value, the rest is as before. A patch that does not fit is
    /// dropped.
    pub open spec fn patched(self, patch: SourcePatch<V, D, R>) -> Self {
        match patch {
            SourcePatch::SourcePosition(v) => SourceParams { source_position: v, ..self },
            SourcePatch::ListenerPosition(v) => SourceParams { listener_position: v, ..self },
            SourcePatch::SimulationOutputs(o) => SourceParams { simulation_outputs: o, ..self },
            SourcePatch::Direct(d) => match self.simulation_outputs {
                Some(o) => SourceParams {
                    simulation_outputs: Some(
                        SimulationOutputs { direct: d, reflections: o.reflections },
                    ),
                    ..self
                },
                None => self,
            },
            SourcePatch::Reflections(r) => match self.simulation_outputs {
                Some(o) => SourceParams {
                    simulation_outputs: Some(SimulationOutputs { direct: o.direct, reflections: r }),
                    ..self
                },
                None => self,
            },
            SourcePatch::ReverbEffectParams(r) => SourceParams { reverb_effect_params: r, ..self },
        }
    }

    /// The parameters after `patches`, applied first to last.
    pub open spec fn patched_all(self, patches: Seq<SourcePatch<V, D, R>>) -> Self
        decreases patches.len(),
    {
        if patches.len() == 0 {
            self
        } else {
            self.patched(patches[0]).patched_all(patches.drop_first())
        }
    }

    /// How many of `patches`, applied first to last, do not fit and are
    /// dropped.
    pub open spec fn dropped(self, patches: Seq<SourcePatch<V, D, R>>) -> nat
        decreases patches.len(),
    {
        if patches.len() == 0 {
            0
        } else {
            (if self.fits(patches[0]) {
                0nat
            } else {
                1nat
            }) + self.patched(patches[0]).dropped(patches.drop_first())
        }
    }

    /// Both snapshots that rendering needs are there.
    pub open spec fn complete(self) -> bool {
        self.simulation_outputs is Some && self.reverb_effect_params is Some
    }

    /// The patch that an event with `data` at `path` stands for. The first
    /// index of the path names the field. Behind the index of the
    /// simulation outputs a second index may name their part. What follows
    /// the index of a whole value is not looked at.
    pub open spec fn decoded(data: SourceData<V, D, R>, path: Seq<u32>) -> Result<
        SourcePatch<V, D, R>,
        PatchError,
    > {
        if path.len() == 0 || path[0] > PATH_REVERB_EFFECT_PARAMS {
            Err(PatchError::InvalidPath)
        } else if path[0] == PATH_SOURCE_POSITION {
            match data {
                SourceData::Position(v) => Ok(SourcePatch::SourcePosition(v)),
                _ => Err(PatchError::InvalidData),
            }
        } else if path[0] == PATH_LISTENER_POSITION {
            match data {
                SourceData::Position(v) => Ok(SourcePatch::ListenerPosition(v)),
                _ => Err(PatchError::InvalidData),
            }
        } else if path[0] == PATH_REVERB_EFFECT_PARAMS {
            match data {
                SourceData::Reverb(r) => Ok(SourcePatch::ReverbEffectParams(r)),
                _ => Err(PatchError::InvalidData),
            }
        } else if path.len() == 1 {
            match data {
                SourceData::Outputs(o) => Ok(SourcePatch::SimulationOutputs(o)),
                _ => Err(PatchError::InvalidData),
            }
        } else if path[1] == PATH_DIRECT {
            match data {
                SourceData::Direct(d) => Ok(SourcePatch::Direct(d)),
                _ => Err(PatchError::InvalidData),
            }
        } else if path[1] == PATH_REFLECTIONS {
            match data {
                SourceData::Reflections(r) => Ok(SourcePatch::Reflections(r)),
                _ => Err(PatchError::InvalidData),
            }
        } else {
            Err(PatchError::InvalidPath)
        }
    }

    /// What applying the event with `data` at `path` gives: the error for
    /// which the event is dropped, if it is.
    pub open spec fn refused(self, data: SourceData<V, D, R>, path: Seq<u32>) -> Option<
        PatchError,
    > {
        match Self::decoded(data, path) {
            Ok(patch) => if self.fits(patch) {
                None
            } else {
                Some(PatchError::Mismatch)
            },
            Err(e) => Some(e),
        }
    }

    /// Parameters of a source of which the simulator has reported nothing
    /// yet.
    pub fn new(source_position: V, listener_position: V) -> (r: Self)
        ensures
            r.source_position == source_position,
            r.listener_position == listener_position,
            r.simulation_outputs is None,
            r.reverb_effect_params is None,
            !r.complete(),
    {
        SourceParams {
            source_position,
            listener_position,
            simulation_outputs: None,
            reverb_effect_params: None,
        }
    }

    /// The parameters that a tick of the simulation publishes for a
    /// source: where the source and the listener are, what the simulator
    /// found for the source, and the listener's reverb.
    pub fn published(
        source_position: V,
        listener_position: V,
        outputs: SimulationOutputs<D, R>,
        reverb: R,
    ) -> (r: Self)
        ensures
            r.source_position == source_position,
            r.listener_position == listener_position,
            r.simulation_outputs == Some(outputs),
            r.reverb_effect_params == Some(reverb),
            r.complete(),
    {
        SourceParams {
            source_position,
            listener_position,
            simulation_outputs: Some(outputs),
            reverb_effect_params: Some(reverb),
        }
    }

    /// Whether both snapshots that rendering needs are there.
    pub fn is_complete(&self) -> (r: bool)
        ensures
            r == self.complete(),
    {
        self.simulation_outputs.is_some() && self.reverb_effect_params.is_some()
    }

    /// Makes the patch that an event stands for.
    pub fn patch(data: SourceData<V, D, R>, path: &[u32]) -> (r: Result<
        SourcePatch<V, D, R>,
        PatchError,
    >)
        ensures
            r == Self::decoded(data, path@),
    {
        if path.len() == 0 {
            return Err(PatchError::InvalidPath);
        }
        let field = path[0];
        if field > PATH_REVERB_EFFECT_PARAMS {
            return Err(PatchError::InvalidPath);
        }
        let part: Option<u32> = if field == PATH_SIMULATION_OUTPUTS && path.len() > 1 {
            Some(path[1])
        } else {
            None
        };
        if let Some(part) = part {
            if part > PATH_REFLECTIONS {
                return Err(PatchError::InvalidPath);
            }
        }
        match data {
            SourceData::Position(v) => {
                if field == PATH_SOURCE_POSITION {
                    Ok(SourcePatch::SourcePosition(v))
                } else if field == PATH_LISTENER_POSITION {
                    Ok(SourcePatch::ListenerPosition(v))
                } else {
                    Err(PatchError::InvalidData)
                }
            },
            SourceData::Outputs(o) => {
                if field == PATH_SIMULATION_OUTPUTS && part.is_none() {
                    Ok(SourcePatch::SimulationOutputs(o))
                } else {
                    Err(PatchError::InvalidData)
                }
            },
            SourceData::Direct(d) => {
                if part == Some(PATH_DIRECT) {
                    Ok(SourcePatch::Direct(d))
                } else {
                    Err(PatchError::InvalidData)
                }
            },
            SourceData::Reflections(r) => {
                if part == Some(PATH_REFLECTIONS) {
                    Ok(SourcePatch::Reflections(r))
                } else {
                    Err(PatchError::InvalidData)
                }
            },
            SourceData::Reverb(r) => {
                if field == PATH_REVERB_EFFECT_PARAMS {
                    Ok(SourcePatch::ReverbEffectParams(r))
                } else {
                    Err(PatchError::InvalidData)
                }
            },
        }
    }

    /// Applies one patch. A patch that does not fit is dropped: the
    /// parameters stay as they were.
    pub fn apply(&mut self, patch: SourcePatch<V, D, R>) -> (r: Result<(), PatchError>)
        ensures
            *final(self) == old(self).patched(patch),
            match r {
                Ok(()) => old(self).fits(patch),
                Err(e) => e == PatchError::Mismatch && !old(self).fits(patch) && *final(self)
                    == *old(self),
            },
    {
        match patch {
            SourcePatch::SourcePosition(v) => {
                self.source_position = v;
                Ok(())
            },
            SourcePatch::ListenerPosition(v) => {
                self.listener_position = v;
                Ok(())
            },
            SourcePatch::SimulationOutputs(o) => {
                self.simulation_outputs = o;
                Ok(())
            },
            SourcePatch::Direct(d) => {
                match self.simulation_outputs.take() {
                    Some(o) => {
                        self.simulation_outputs = Some(
                            SimulationOutputs { direct: d, reflections: o.reflections },
                        );
                        Ok(())
                    },
                    None => Err(PatchError::Mismatch),
                }
            },
            SourcePatch::Reflections(r) => {
                match self.simulation_outputs.take() {
                    Some(o) => {
                        self.simulation_outputs = Some(
                            SimulationOutputs { direct: o.direct, reflections: r },
                        );
                        Ok(())
                    },
                    None => Err(PatchError::Mismatch),
                }
            },
            SourcePatch::ReverbEffectParams(r) => {
                self.reverb_effect_params = r;
                Ok(())
            },
        }
    }

    /// Applies the patches of a queue, first to last, drops those that do
    /// not fit, and returns how many were dropped.
    pub fn apply_all(&mut self, patches: Vec<SourcePatch<V, D, R>>) -> (dropped: usize)
        ensures
            *final(self) == old(self).patched_all(patches@),
            dropped == old(self).dropped(patches@),
    {
        let ghost all = patches@;
        let ghost start = *self;
        let count = patches.len();
        let mut dropped: usize = 0;
        proof {
            assert(all.skip(0) =~= all);
        }
        for patch in it: patches
            invariant
                it.seq() == all,
                all.len() == count,
                dropped <= it.index(),
                self.patched_all(all.skip(it.index() as int)) == start.patched_all(all),
                dropped + self.dropped(all.skip(it.index() as int)) == start.dropped(all),
        {
            proof {
                let rest = all.skip(it.index() as int);
                assert(rest[0] == patch);
                assert(rest.drop_first() =~= all.skip(it.index() + 1));
            }
            if self.apply(patch).is_err() {
                dropped = dropped + 1;
            }
        }
        proof {
            assert(all.skip(all.len() as int) =~= Seq::empty());
        }
        dropped
    }

    /// Applies an event if it stands for a patch that fits. Any other
    /// event is dropped: the parameters stay as they were.
    pub fn apply_event(&mut self, data: SourceData<V, D, R>, path: &[u32]) -> (r: Result<
        (),
        PatchError,
    >)
        ensures
            match r {
                Ok(()) => {
                    &&& old(self).refused(data, path@) is None
                    &&& *final(self) == old(self).patched(Self::decoded(data, path@)->Ok_0)
                },
                Err(e) => {
                    &&& old(self).refused(data, path@) == Some(e)
                    &&& *final(self) == *old(self)
                },
            },
    {
        match Self::patch(data, path) {
            Ok(patch) => self.apply(patch),
            Err(e) => Err(e),
        }
    }
}

impl<V, D, R> SourcePatch<V, D, R> {
    /// The path that names what the patch changes.
    pub open spec fn path(self) -> Seq<u32> {
        match self {
            SourcePatch::SourcePosition(_) => seq![PATH_SOURCE_POSITION],
            SourcePatch::ListenerPosition(_) => seq![PATH_LISTENER_POSITION],
            SourcePatch::SimulationOutputs(_) => seq![PATH_SIMULATION_OUTPUTS],
            SourcePatch::Direct(_) => seq![PATH_SIMULATION_OUTPUTS, PATH_DIRECT],
            SourcePatch::Reflections(_) => seq![PATH_SIMULATION_OUTPUTS, PATH_REFLECTIONS],
            SourcePatch::ReverbEffectParams(_) => seq![PATH_REVERB_EFFECT_PARAMS],
        }
    }

    /// What an event for the patch carries.
    pub open spec fn data(self) -> SourceData<V, D, R> {
        match self {
            SourcePatch::SourcePosition(v) => SourceData::Position(v),
            SourcePatch::ListenerPosition(v) => SourceData::Position(v),
            SourcePatch::SimulationOutputs(o) => SourceData::Outputs(o),
            SourcePatch::Direct(d) => SourceData::Direct(d),
            SourcePatch::Reflections(r) => SourceData::Reflections(r),
            SourcePatch::ReverbEffectParams(r) => SourceData::Reverb(r),
        }
    }

    /// Turns the patch into what an event carries and the path that names
    /// what it changes.
    pub fn into_event(self) -> (r: (SourceData<V, D, R>, Vec<u32>))
        ensures
            r.0 == self.data(),
            r.1@ == self.path(),
    {
        let mut path: Vec<u32> = Vec::new();
        let data = match self {
            SourcePatch::SourcePosition(v) => {
                path.push(PATH_SOURCE_POSITION);
                SourceData::Position(v)
            },
            SourcePatch::ListenerPosition(v) => {
                path.push(PATH_LISTENER_POSITION);
                SourceData::Position(v)
            },
            SourcePatch::SimulationOutputs(o) => {
                path.push(PATH_SIMULATION_OUTPUTS);
                SourceData::Outputs(o)
            },
            SourcePatch::Direct(d) => {
                path.push(PATH_SIMULATION_OUTPUTS);
                path.push(PATH_DIRECT);
                SourceData::Direct(d)
            },
            SourcePatch::Reflections(r) => {
                path.push(PATH_SIMULATION_OUTPUTS);
                path.push(PATH_REFLECTIONS);
                SourceData::Reflections(r)
            },
            SourcePatch::ReverbEffectParams(r) => {
                path.push(PATH_REVERB_EFFECT_PARAMS);
                SourceData::Reverb(r)
            },
        };
        proof {
            assert(path@ =~= self.path());
        }
        (data, path)
    }
}

/// An event made from a patch stands for that patch.
pub proof fn lemma_event_round_trip<V, D, R>(patch: SourcePatch<V, D, R>)
    ensures
        SourceParams::decoded(patch.data(), patch.path()) == Ok::<SourcePatch<V, D, R>, PatchError>(
            patch,
        ),
{
}

/// The patches that turn the simulation outputs `old` into `new`: one for
/// each part that does not compare equal where both are there, none where
/// both are missing, and one for the whole where one is missing.
pub open spec fn outputs_diffed<V, D: PartialEq, R: PartialEq>(
    new: Option<SimulationOutputs<D, R>>,
    old: Option<SimulationOutputs<D, R>>,
) -> Seq<SourcePatch<V, D, R>> {
    match (new, old) {
        (Some(x), Some(y)) => (if x.direct.eq_spec(&y.direct) {
            Seq::empty()
        } else {
            seq![SourcePatch::Direct(x.direct)]
        }) + (if x.reflections.eq_spec(&y.reflections) {
            Seq::empty()
        } else {
            seq![SourcePatch::Reflections(x.reflections)]
        }),
        (None, None) => Seq::empty(),
        _ => seq![SourcePatch::SimulationOutputs(new)],
    }
}

/// Where the parts of two simulation outputs compare equal, they are
/// equal.
pub open spec fn outputs_exact<D: PartialEq, R: PartialEq>(
    new: Option<SimulationOutputs<D, R>>,
    old: Option<SimulationOutputs<D, R>>,
) -> bool {
    match (new, old) {
        (Some(x), Some(y)) => {
            &&& x.direct.eq_spec(&y.direct) ==> x.direct == y.direct
            &&& x.reflections.eq_spec(&y.reflections) ==> x.reflections == y.reflections
        },
        _ => true,
    }
}

/// Two optional reflection parameters compare equal: both are missing, or
/// both are there and compare equal.
pub open spec fn same_reflections<R: PartialEq>(a: Option<R>, b: Option<R>) -> bool {
    match (a, b) {
        (Some(x), Some(y)) => x.eq_spec(&y),
        (None, None) => true,
        _ => false,
    }
}

impl<V: PartialEq, D: PartialEq, R: PartialEq> SourceParams<V, D, R> {
    /// The patches that turn `baseline` into `self`: one for each field or
    /// part that does not compare equal, in the order of the fields.
    pub open spec fn diffed(self, baseline: Self) -> Seq<SourcePatch<V, D, R>> {
        (if self.source_position.eq_spec(&baseline.source_position) {
            Seq::empty()
        } else {
            seq![SourcePatch::SourcePosition(self.source_position)]
        }) + (if self.listener_position.eq_spec(&baseline.listener_position) {
            Seq::empty()
        } else {
            seq![SourcePatch::ListenerPosition(self.listener_position)]
        }) + outputs_diffed(self.simulation_outputs, baseline.simulation_outputs) + (
        if same_reflections(self.reverb_effect_params, baseline.reverb_effect_params) {
            Seq::empty()
        } else {
            seq![SourcePatch::ReverbEffectParams(self.reverb_effect_params)]
        })
    }

    /// Where two fields or parts compare equal, they are equal: comparison
    /// tells apart all that differs between `self` and `baseline`.
    pub open spec fn comparison_exact(self, baseline: Self) -> bool {
        &&& self.source_position.eq_spec(&baseline.source_position) ==> self.source_position
            == baseline.source_position
        &&& self.listener_position.eq_spec(&baseline.listener_position) ==> self.listener_position
            == baseline.listener_position
        &&& outputs_exact(self.simulation_outputs, baseline.simulation_outputs)
        &&& same_reflections(self.reverb_effect_params, baseline.reverb_effect_params)
            ==> self.reverb_effect_params == baseline.reverb_effect_params
    }

    /// Compares the parameters field by field with `baseline` and returns
    /// a patch for each field or part that differs, in the order of the
    /// fields. The result is pinned down where `==` on the three payload
    /// types is what their `eq_spec` says.
    pub fn diff(self, baseline: &Self) -> (r: Vec<SourcePatch<V, D, R>>)
        ensures
            V::obeys_eq_spec() && D::obeys_eq_spec() && R::obeys_eq_spec() ==> r@ == self.diffed(
                *baseline,
            ),
            r@.len() <= 5,
    {
        let ghost goal = self.diffed(*baseline);
        let ghost exact = V::obeys_eq_spec() && D::obeys_eq_spec() && R::obeys_eq_spec();
        let SourceParams {
            source_position,
            listener_position,
            simulation_outputs,
            reverb_effect_params,
        } = self;
        let mut patches: Vec<SourcePatch<V, D, R>> = Vec::new();
        if !(source_position == baseline.source_position) {
            patches.push(SourcePatch::SourcePosition(source_position));
        }
        if !(listener_position == baseline.listener_position) {
            patches.push(SourcePatch::ListenerPosition(listener_position));
        }
        match simulation_outputs {
            Some(x) => match &baseline.simulation_outputs {
                Some(y) => {
                    let SimulationOutputs { direct, reflections } = x;
                    if !(direct == y.direct) {
                        patches.push(SourcePatch::Direct(direct));
                    }
                    if !(reflections == y.reflections) {
                        patches.push(SourcePatch::Reflections(reflections));
                    }
                },
                None => {
                    patches.push(SourcePatch::SimulationOutputs(Some(x)));
                },
            },
            None => match &baseline.simulation_outputs {
                Some(_) => {
                    patches.push(SourcePatch::SimulationOutputs(None));
                },
                None => {},
            },
        }
        let same_reverb = match (&reverb_effect_params, &baseline.reverb_effect_params) {
            (Some(x), Some(y)) => x == y,
            (None, None) => true,
            _ => false,
        };
        if !same_reverb {
            patches.push(SourcePatch::ReverbEffectParams(reverb_effect_params));
        }
        proof {
            if exact {
                assert(patches@ =~= goal);
            }
        }
        patches
    }
}

/// Applying the patches one after the other is applying the first part
/// and then the second, and as many patches are dropped.
pub proof fn lemma_patched_all_concat<V, D, R>(
    params: SourceParams<V, D, R>,
    first: Seq<SourcePatch<V, D, R>>,
    second: Seq<SourcePatch<V, D, R>>,
)
    ensures
        params.patched_all(first + second) == params.patched_all(first).patched_all(second),
        params.dropped(first + second) == params.dropped(first) + params.patched_all(
            first,
        ).dropped(second),
    decreases first.len(),
{
    if first.len() == 0 {
        assert(first + second =~= second);
    } else {
        assert((first + second)[0] == first[0]);
        assert((first + second).drop_first() =~= first.drop_first() + second);
        lemma_patched_all_concat(params.patched(first[0]), first.drop_first(), second);
    }
}

/// Applying one patch as a list is applying it.
pub proof fn lemma_patched_all_one<V, D, R>(
    params: SourceParams<V, D, R>,
    patch: SourcePatch<V, D, R>,
)
    ensures
        params.patched_all(seq![patch]) == params.patched(patch),
        params.patched_all(Seq::empty()) == params,
        params.dropped(seq![patch]) == if params.fits(patch) {
            0nat
        } else {
            1nat
        },
        params.dropped(Seq::empty()) == 0,
{
    assert(seq![patch].drop_first() =~= Seq::<SourcePatch<V, D, R>>::empty());
    assert(params.patched(patch).patched_all(Seq::empty()) == params.patched(patch));
    assert(params.patched(patch).dropped(Seq::empty()) == 0);
    assert(seq![patch][0] == patch);
}

/// The patches for the simulation outputs turn the old outputs into the
/// new ones, none of them is dropped, and the other fields stay.
pub proof fn lemma_outputs_diff_then_patch<V, D: PartialEq, R: PartialEq>(
    params: SourceParams<V, D, R>,
    new: Option<SimulationOutputs<D, R>>,
)
    requires
        outputs_exact(new, params.simulation_outputs),
    ensures
        params.patched_all(outputs_diffed(new, params.simulation_outputs)) == (SourceParams {
            simulation_outputs: new,
            ..params
        }),
        params.dropped(outputs_diffed(new, params.simulation_outputs)) == 0,
{
    let old = params.simulation_outputs;
    match (new, old) {
        (Some(x), Some(y)) => {
            let p1: Seq<SourcePatch<V, D, R>> = if x.direct.eq_spec(&y.direct) {
                Seq::empty()
            } else {
                seq![SourcePatch::Direct(x.direct)]
            };
            let p2: Seq<SourcePatch<V, D, R>> = if x.reflections.eq_spec(&y.reflections) {
                Seq::empty()
            } else {
                seq![SourcePatch::Reflections(x.reflections)]
            };
            assert(outputs_diffed::<V, D, R>(new, old) == p1 + p2);
            lemma_patched_all_concat(params, p1, p2);
            lemma_patched_all_one(params, SourcePatch::Direct(x.direct));
            let s1 = params.patched_all(p1);
            lemma_patched_all_one(s1, SourcePatch::Reflections(x.reflections));
            assert(s1.simulation_outputs is Some);
            assert(s1.simulation_outputs->Some_0.direct == x.direct);
            assert(s1.simulation_outputs->Some_0.reflections == y.reflections);
        },
        (None, None) => {
            lemma_patched_all_one(params, SourcePatch::SimulationOutputs(new));
        },
        _ => {
            lemma_patched_all_one(params, SourcePatch::SimulationOutputs(new));
        },
    }
}

/// Diffing and patching undo each other: where comparison tells apart
/// all that differs, the patches that `diff` makes turn the baseline into
/// the new parameters, and none of them is dropped.
pub proof fn lemma_diff_then_patch<V: PartialEq, D: PartialEq, R: PartialEq>(
    new: SourceParams<V, D, R>,
    baseline: SourceParams<V, D, R>,
)
    requires
        new.comparison_exact(baseline),
    ensures
        baseline.patched_all(new.diffed(baseline)) == new,
        baseline.dropped(new.diffed(baseline)) == 0,
{
    let p1 = if new.source_position.eq_spec(&baseline.source_position) {
        Seq::empty()
    } else {
        seq![SourcePatch::SourcePosition(new.source_position)]
    };
    let p2 = if new.listener_position.eq_spec(&baseline.listener_position) {
        Seq::empty()
    } else {
        seq![SourcePatch::ListenerPosition(new.listener_position)]
    };
    let p3 = outputs_diffed::<V, D, R>(new.simulation_outputs, baseline.simulation_outputs);
    let p4 = if same_reflections(new.reverb_effect_params, baseline.reverb_effect_params) {
        Seq::empty()
    } else {
        seq![SourcePatch::ReverbEffectParams(new.reverb_effect_params)]
    };
    assert(new.diffed(baseline) == p1 + p2 + p3 + p4);
    let s1 = baseline.patched_all(p1);
    let s2 = s1.patched_all(p2);
    let s3 = s2.patched_all(p3);
    let s4 = s3.patched_all(p4);
    lemma_patched_all_concat(baseline, p1 + p2 + p3, p4);
    lemma_patched_all_concat(baseline, p1 + p2, p3);
    lemma_patched_all_concat(baseline, p1, p2);
    lemma_patched_all_one(baseline, SourcePatch::SourcePosition(new.source_position));
    lemma_patched_all_one(s1, SourcePatch::ListenerPosition(new.listener_position));
    assert(s1.simulation_outputs == baseline.simulation_outputs);
    assert(s2.simulation_outputs == baseline.simulation_outputs);
    lemma_outputs_diff_then_patch(s2, new.simulation_outputs);
    lemma_patched_all_one(s3, SourcePatch::ReverbEffectParams(new.reverb_effect_params));
    assert(s1.source_position == new.source_position);
    assert(s2.listener_position == new.listener_position && s2.source_position
        == new.source_position);
    assert(s3.simulation_outputs == new.simulation_outputs);
    assert(s4 == new);
}

/// The patches of `diff` are no more than needed: parameters that compare
/// equal to the baseline in every field and part give no patch, no two
/// patches are for the same field or part, and where the simulation
/// outputs are there on both sides they are never sent as a whole.
pub proof fn lemma_diff_minimal<V: PartialEq, D: PartialEq, R: PartialEq>(
    new: SourceParams<V, D, R>,
    baseline: SourceParams<V, D, R>,
)
    ensures
        new.source_position.eq_spec(&baseline.source_position) && new.listener_position.eq_spec(
            &baseline.listener_position,
        ) && outputs_diffed::<V, D, R>(new.simulation_outputs, baseline.simulation_outputs).len()
            == 0 && same_reflections(new.reverb_effect_params, baseline.reverb_effect_params)
            ==> new.diffed(baseline).len() == 0,
        forall|i: int, j: int|
            0 <= i < j < new.diffed(baseline).len() ==> new.diffed(baseline)[i].path()
                != new.diffed(baseline)[j].path(),
        new.simulation_outputs is Some && baseline.simulation_outputs is Some ==> forall|i: int|
            0 <= i < new.diffed(baseline).len() ==> !(
            #[trigger] new.diffed(baseline)[i] is SimulationOutputs),
{
    let d = new.diffed(baseline);
    assert forall|i: int, j: int| 0 <= i < j < d.len() implies d[i].path() != d[j].path() by {
        assert(d[i].path()[0] <= d[j].path()[0]);
        if d[i].path()[0] == d[j].path()[0] {
            assert(d[i].path().len() == 2 && d[j].path().len() == 2);
            assert(d[i].path()[1] != d[j].path()[1]);
        }
    }
}

/// The parameters of the decode node.
pub struct DecodeParams<L> {
    pub listener_orientation: L,
}

/// One change of the parameters of the decode node.
pub enum DecodePatch<L> {
    ListenerOrientation(L),
}

/// The index of `listener_orientation` in the paths of events.
pub const PATH_LISTENER_ORIENTATION: u32 = 0;

impl<L> DecodeParams<L> {
    /// The parameters after `patch`.
    pub open spec fn patched(self, patch: DecodePatch<L>) -> Self {
        match patch {
            DecodePatch::ListenerOrientation(l) => DecodeParams { listener_orientation: l },
        }
    }

    /// The patch that an event with `data` at `path` stands for.
    pub open spec fn decoded(data: L, path: Seq<u32>) -> Result<DecodePatch<L>, PatchError> {
        if path.len() == 0 || path[0] != PATH_LISTENER_ORIENTATION {
            Err(PatchError::InvalidPath)
        } else {
            Ok(DecodePatch::ListenerOrientation(data))
        }
    }

    pub fn new(listener_orientation: L) -> (r: Self)
        ensures
            r.listener_orientation == listener_orientation,
    {
        DecodeParams { listener_orientation }
    }

    /// Makes the patch that an event stands for.
    pub fn patch(data: L, path: &[u32]) -> (r: Result<DecodePatch<L>, PatchError>)
        ensures
            r == Self::decoded(data, path@),
    {
        if path.len() == 0 {
            return Err(PatchError::InvalidPath);
        }
        if path[0] != PATH_LISTENER_ORIENTATION {
            return Err(PatchError::InvalidPath);
        }
        Ok(DecodePatch::ListenerOrientation(data))
    }

    /// Applies one patch.
    pub fn apply(&mut self, patch: DecodePatch<L>)
        ensures
            *final(self) == old(self).patched(patch),
    {
        match patch {
            DecodePatch::ListenerOrientation(l) => {
                self.listener_orientation = l;
            },
        }
    }
}

} // verus!
