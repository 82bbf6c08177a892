use spatial_audio::params::{
    DecodeParams, DecodePatch, PatchError, SimulationOutputs, SourceData, SourceParams,
    SourcePatch, PATH_DIRECT, PATH_LISTENER_POSITION, PATH_REFLECTIONS,
    PATH_REVERB_EFFECT_PARAMS, PATH_SIMULATION_OUTPUTS, PATH_SOURCE_POSITION,
};

type Params = SourceParams<[f32; 3], f32, u32>;
type Patch = SourcePatch<[f32; 3], f32, u32>;
type Data = SourceData<[f32; 3], f32, u32>;

fn fields(p: &Params) -> ([f32; 3], [f32; 3], Option<(f32, u32)>, Option<u32>) {
    (
        p.source_position,
        p.listener_position,
        p.simulation_outputs.as_ref().map(|o| (o.direct, o.reflections)),
        p.reverb_effect_params,
    )
}

/// A patch as a value that can be compared.
#[derive(Debug, PartialEq)]
enum Kind {
    SourcePosition([f32; 3]),
    ListenerPosition([f32; 3]),
    SimulationOutputs(Option<(f32, u32)>),
    Direct(f32),
    Reflections(u32),
    ReverbEffectParams(Option<u32>),
}

fn kind(p: &Patch) -> Kind {
    match p {
        SourcePatch::SourcePosition(v) => Kind::SourcePosition(*v),
        SourcePatch::ListenerPosition(v) => Kind::ListenerPosition(*v),
        SourcePatch::SimulationOutputs(o) => {
            Kind::SimulationOutputs(o.as_ref().map(|o| (o.direct, o.reflections)))
        }
        SourcePatch::Direct(d) => Kind::Direct(*d),
        SourcePatch::Reflections(r) => Kind::Reflections(*r),
        SourcePatch::ReverbEffectParams(r) => Kind::ReverbEffectParams(*r),
    }
}

fn outputs(direct: f32, reflections: u32) -> SimulationOutputs<f32, u32> {
    SimulationOutputs { direct, reflections }
}

#[test]
fn new_params_hold_no_snapshot() {
    let p = Params::new([1.0, 2.0, 3.0], [0.0, 0.0, 0.0]);
    assert_eq!(fields(&p), ([1.0, 2.0, 3.0], [0.0, 0.0, 0.0], None, None));
    assert!(!p.is_complete());
}

#[test]
fn published_params_are_complete() {
    let p = Params::published([1.0, 0.0, 0.0], [0.0, 1.0, 0.0], outputs(0.5, 7), 9);
    assert_eq!(fields(&p), ([1.0, 0.0, 0.0], [0.0, 1.0, 0.0], Some((0.5, 7)), Some(9)));
    assert!(p.is_complete());
}

#[test]
fn params_are_complete_only_with_both_snapshots() {
    let mut p = Params::new([0.0; 3], [0.0; 3]);
    assert_eq!(p.apply(SourcePatch::SimulationOutputs(Some(outputs(1.0, 2)))), Ok(()));
    assert!(!p.is_complete());
    assert_eq!(p.apply(SourcePatch::ReverbEffectParams(Some(3))), Ok(()));
    assert!(p.is_complete());
    assert_eq!(p.apply(SourcePatch::SimulationOutputs(None)), Ok(()));
    assert!(!p.is_complete());
}

#[test]
fn apply_changes_the_named_field_only() {
    let mut p = Params::new([1.0, 2.0, 3.0], [4.0, 5.0, 6.0]);
    assert_eq!(p.apply(SourcePatch::ListenerPosition([7.0, 8.0, 9.0])), Ok(()));
    assert_eq!(fields(&p), ([1.0, 2.0, 3.0], [7.0, 8.0, 9.0], None, None));
    assert_eq!(p.apply(SourcePatch::SourcePosition([0.5, 0.5, 0.5])), Ok(()));
    assert_eq!(fields(&p), ([0.5, 0.5, 0.5], [7.0, 8.0, 9.0], None, None));
}

#[test]
fn apply_changes_one_part_of_the_outputs() {
    let mut p = Params::published([1.0; 3], [2.0; 3], outputs(1.0, 2), 3);
    assert_eq!(p.apply(SourcePatch::Direct(0.25)), Ok(()));
    assert_eq!(fields(&p), ([1.0; 3], [2.0; 3], Some((0.25, 2)), Some(3)));
    assert_eq!(p.apply(SourcePatch::Reflections(8)), Ok(()));
    assert_eq!(fields(&p), ([1.0; 3], [2.0; 3], Some((0.25, 8)), Some(3)));
}

#[test]
fn apply_drops_a_patch_for_outputs_that_are_not_there() {
    let mut p = Params::new([1.0; 3], [2.0; 3]);
    assert_eq!(p.apply(SourcePatch::Direct(0.25)), Err(PatchError::Mismatch));
    assert_eq!(p.apply(SourcePatch::Reflections(8)), Err(PatchError::Mismatch));
    assert_eq!(fields(&p), ([1.0; 3], [2.0; 3], None, None));
}

#[test]
fn apply_all_keeps_the_order_of_the_queue() {
    let mut p = Params::new([0.0; 3], [0.0; 3]);
    let dropped = p.apply_all(vec![
        SourcePatch::SourcePosition([1.0, 0.0, 0.0]),
        SourcePatch::ReverbEffectParams(Some(1)),
        SourcePatch::SourcePosition([2.0, 0.0, 0.0]),
        SourcePatch::ReverbEffectParams(Some(2)),
    ]);
    assert_eq!(dropped, 0);
    assert_eq!(fields(&p), ([2.0, 0.0, 0.0], [0.0; 3], None, Some(2)));
    assert_eq!(p.apply_all(vec![]), 0);
    assert_eq!(fields(&p), ([2.0, 0.0, 0.0], [0.0; 3], None, Some(2)));
}

#[test]
fn apply_all_counts_what_it_drops() {
    let mut p = Params::new([0.0; 3], [0.0; 3]);
    let dropped = p.apply_all(vec![
        SourcePatch::Direct(0.5),
        SourcePatch::SimulationOutputs(Some(outputs(1.0, 2))),
        SourcePatch::Direct(0.75),
        SourcePatch::SimulationOutputs(None),
        SourcePatch::Reflections(4),
    ]);
    assert_eq!(dropped, 2);
    assert_eq!(fields(&p), ([0.0; 3], [0.0; 3], None, None));
}

#[test]
fn patch_reads_the_field_off_the_path() {
    let p = Params::patch(Data::Position([1.0, 2.0, 3.0]), &[PATH_SOURCE_POSITION]).ok().unwrap();
    assert_eq!(kind(&p), Kind::SourcePosition([1.0, 2.0, 3.0]));
    let p = Params::patch(Data::Position([1.0, 2.0, 3.0]), &[PATH_LISTENER_POSITION]).ok().unwrap();
    assert_eq!(kind(&p), Kind::ListenerPosition([1.0, 2.0, 3.0]));
    let p = Params::patch(Data::Outputs(Some(outputs(0.25, 4))), &[PATH_SIMULATION_OUTPUTS])
        .ok()
        .unwrap();
    assert_eq!(kind(&p), Kind::SimulationOutputs(Some((0.25, 4))));
    let p = Params::patch(Data::Direct(0.5), &[PATH_SIMULATION_OUTPUTS, PATH_DIRECT])
        .ok()
        .unwrap();
    assert_eq!(kind(&p), Kind::Direct(0.5));
    let p = Params::patch(Data::Reflections(6), &[PATH_SIMULATION_OUTPUTS, PATH_REFLECTIONS])
        .ok()
        .unwrap();
    assert_eq!(kind(&p), Kind::Reflections(6));
    // What follows the index of a whole value is not looked at.
    let p = Params::patch(Data::Reverb(None), &[PATH_REVERB_EFFECT_PARAMS, 17]).ok().unwrap();
    assert_eq!(kind(&p), Kind::ReverbEffectParams(None));
    let p = Params::patch(Data::Direct(0.5), &[2, 0, 9]).ok().unwrap();
    assert_eq!(kind(&p), Kind::Direct(0.5));
}

#[test]
fn patch_refuses_a_path_that_names_nothing() {
    assert_eq!(Params::patch(Data::Position([0.0; 3]), &[]).err(), Some(PatchError::InvalidPath));
    assert_eq!(Params::patch(Data::Position([0.0; 3]), &[4]).err(), Some(PatchError::InvalidPath));
    assert_eq!(Params::patch(Data::Direct(1.0), &[2, 2]).err(), Some(PatchError::InvalidPath));
    assert_eq!(Params::patch(Data::Outputs(None), &[2, 7]).err(), Some(PatchError::InvalidPath));
}

#[test]
fn patch_refuses_data_of_the_wrong_kind() {
    assert_eq!(
        Params::patch(Data::Reverb(Some(1)), &[PATH_SOURCE_POSITION]).err(),
        Some(PatchError::InvalidData)
    );
    assert_eq!(
        Params::patch(Data::Position([0.0; 3]), &[PATH_SIMULATION_OUTPUTS]).err(),
        Some(PatchError::InvalidData)
    );
    assert_eq!(
        Params::patch(Data::Outputs(None), &[PATH_REVERB_EFFECT_PARAMS]).err(),
        Some(PatchError::InvalidData)
    );
    assert_eq!(Params::patch(Data::Direct(1.0), &[2]).err(), Some(PatchError::InvalidData));
    assert_eq!(Params::patch(Data::Direct(1.0), &[2, 1]).err(), Some(PatchError::InvalidData));
    assert_eq!(Params::patch(Data::Reflections(1), &[2, 0]).err(), Some(PatchError::InvalidData));
    assert_eq!(Params::patch(Data::Outputs(None), &[2, 0]).err(), Some(PatchError::InvalidData));
    assert_eq!(Params::patch(Data::Reflections(1), &[3]).err(), Some(PatchError::InvalidData));
}

#[test]
fn apply_event_drops_what_is_no_patch() {
    let mut p = Params::published([1.0; 3], [2.0; 3], outputs(1.0, 2), 3);
    assert_eq!(p.apply_event(Data::Position([9.0; 3]), &[7]), Err(PatchError::InvalidPath));
    assert_eq!(p.apply_event(Data::Position([9.0; 3]), &[3]), Err(PatchError::InvalidData));
    assert_eq!(fields(&p), ([1.0; 3], [2.0; 3], Some((1.0, 2)), Some(3)));
    assert_eq!(p.apply_event(Data::Position([9.0; 3]), &[1]), Ok(()));
    assert_eq!(fields(&p), ([1.0; 3], [9.0; 3], Some((1.0, 2)), Some(3)));
    assert_eq!(p.apply_event(Data::Outputs(None), &[2]), Ok(()));
    assert_eq!(p.apply_event(Data::Direct(0.5), &[2, 0]), Err(PatchError::Mismatch));
    assert_eq!(fields(&p), ([1.0; 3], [9.0; 3], None, Some(3)));
}

#[test]
fn an_event_made_from_a_patch_stands_for_it() {
    let patches: Vec<Patch> = vec![
        SourcePatch::SourcePosition([1.0, 2.0, 3.0]),
        SourcePatch::ListenerPosition([4.0, 5.0, 6.0]),
        SourcePatch::SimulationOutputs(Some(outputs(0.5, 6))),
        SourcePatch::Direct(0.75),
        SourcePatch::Reflections(8),
        SourcePatch::ReverbEffectParams(Some(9)),
    ];
    let expected_paths: Vec<Vec<u32>> =
        vec![vec![0], vec![1], vec![2], vec![2, 0], vec![2, 1], vec![3]];
    for (patch, expected_path) in patches.into_iter().zip(expected_paths) {
        let before = kind(&patch);
        let (data, path) = patch.into_event();
        assert_eq!(path, expected_path);
        let back = Params::patch(data, &path).ok().unwrap();
        assert_eq!(kind(&back), before);
    }
}

#[test]
fn diff_gives_a_patch_for_each_field_that_differs() {
    let baseline = Params::new([1.0, 0.0, 0.0], [0.0, 0.0, 0.0]);
    let new = Params::published([1.0, 0.0, 0.0], [0.0, 0.0, 5.0], outputs(0.5, 1), 2);
    let patches = new.diff(&baseline);
    let kinds: Vec<_> = patches.iter().map(kind).collect();
    assert_eq!(
        kinds,
        vec![
            Kind::ListenerPosition([0.0, 0.0, 5.0]),
            Kind::SimulationOutputs(Some((0.5, 1))),
            Kind::ReverbEffectParams(Some(2)),
        ]
    );
}

#[test]
fn diff_of_equal_params_is_empty() {
    let a = Params::published([1.0; 3], [2.0; 3], outputs(1.0, 2), 3);
    let b = Params::published([1.0; 3], [2.0; 3], outputs(1.0, 2), 3);
    assert!(a.diff(&b).is_empty());
    let a = Params::new([1.0; 3], [2.0; 3]);
    let b = Params::new([1.0; 3], [2.0; 3]);
    assert!(a.diff(&b).is_empty());
}

#[test]
fn diff_sends_only_the_part_of_the_outputs_that_differs() {
    let a = Params::published([1.0; 3], [2.0; 3], outputs(1.0, 2), 3);
    let b = Params::published([1.0; 3], [2.0; 3], outputs(1.0, 9), 3);
    let kinds: Vec<_> = a.diff(&b).iter().map(kind).collect();
    assert_eq!(kinds, vec![Kind::Reflections(2)]);
    let a = Params::published([1.0; 3], [2.0; 3], outputs(0.5, 2), 3);
    let b = Params::published([1.0; 3], [2.0; 3], outputs(1.0, 9), 3);
    let kinds: Vec<_> = a.diff(&b).iter().map(kind).collect();
    assert_eq!(kinds, vec![Kind::Direct(0.5), Kind::Reflections(2)]);
}

#[test]
fn diff_sends_the_outputs_as_a_whole_when_they_come_or_go() {
    let with = Params::published([1.0; 3], [2.0; 3], outputs(1.0, 2), 3);
    let mut without = Params::new([1.0; 3], [2.0; 3]);
    without.reverb_effect_params = Some(3);
    let kinds: Vec<_> = with.diff(&without).iter().map(kind).collect();
    assert_eq!(kinds, vec![Kind::SimulationOutputs(Some((1.0, 2)))]);
    let with = Params::published([1.0; 3], [2.0; 3], outputs(1.0, 2), 3);
    let kinds: Vec<_> = without.diff(&with).iter().map(kind).collect();
    assert_eq!(kinds, vec![Kind::SimulationOutputs(None)]);
}

#[test]
fn patches_of_diff_turn_the_baseline_into_the_new_params() {
    let mut held = Params::published([1.0; 3], [2.0; 3], outputs(1.0, 2), 3);
    let baseline = Params::published([1.0; 3], [2.0; 3], outputs(1.0, 2), 3);
    let new = Params::published([4.0; 3], [2.0; 3], outputs(0.5, 2), 8);
    let patches = new.diff(&baseline);
    assert_eq!(patches.len(), 3);
    assert_eq!(held.apply_all(patches), 0);
    assert_eq!(fields(&held), ([4.0; 3], [2.0; 3], Some((0.5, 2)), Some(8)));
}

#[test]
fn decode_params_take_the_listener_orientation() {
    let mut p = DecodeParams::new([0.0f32; 4]);
    match DecodeParams::patch([1.0f32, 2.0, 3.0, 4.0], &[0]) {
        Ok(patch) => p.apply(patch),
        Err(_) => panic!("a patch was owed"),
    }
    assert_eq!(p.listener_orientation, [1.0, 2.0, 3.0, 4.0]);
    p.apply(DecodePatch::ListenerOrientation([5.0; 4]));
    assert_eq!(p.listener_orientation, [5.0; 4]);
}

#[test]
fn decode_params_refuse_other_paths() {
    assert_eq!(DecodeParams::patch(1u8, &[]).err(), Some(PatchError::InvalidPath));
    assert_eq!(DecodeParams::patch(1u8, &[1]).err(), Some(PatchError::InvalidPath));
}
