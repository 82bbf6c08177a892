use spatial_audio::adapter::{BlockAdapter, Delivery, Progress, Step};
use spatial_audio::error::{BufferShapeError, ConstructionError, CycleError};

fn slices(channels: &[Vec<f32>]) -> Vec<&[f32]> {
    channels.iter().map(|c| c.as_slice()).collect()
}

fn drain(adapter: &mut BlockAdapter<f32>, frames: usize, channels: usize) -> (Delivery, Vec<Vec<f32>>) {
    let mut out = vec![vec![9.0f32; frames]; channels];
    let delivery = {
        let mut refs: Vec<&mut [f32]> = out.iter_mut().map(|c| c.as_mut_slice()).collect();
        adapter.drain(frames, &mut refs).unwrap()
    };
    (delivery, out)
}

#[test]
fn new_rejects_zero_frame_size() {
    assert_eq!(
        BlockAdapter::<f32>::new(0, 2, 9, 64, 0.0).err(),
        Some(ConstructionError::ZeroFrameSize)
    );
}

#[test]
fn new_rejects_zero_block_size() {
    assert_eq!(
        BlockAdapter::<f32>::new(4, 2, 9, 0, 0.0).err(),
        Some(ConstructionError::ZeroBlockSize)
    );
}

#[test]
fn new_rejects_missing_channels() {
    assert_eq!(
        BlockAdapter::<f32>::new(4, 0, 9, 8, 0.0).err(),
        Some(ConstructionError::NoInputChannels)
    );
    assert_eq!(
        BlockAdapter::<f32>::new(4, 2, 0, 8, 0.0).err(),
        Some(ConstructionError::NoOutputChannels)
    );
}

#[test]
fn new_adapter_is_empty() {
    let a = BlockAdapter::<f32>::new(4, 2, 3, 8, 0.0).unwrap();
    assert_eq!(a.frame_size(), 4);
    assert_eq!(a.max_block(), 8);
    assert_eq!(a.in_channels(), 2);
    assert_eq!(a.out_channels(), 3);
    assert_eq!(a.pending_len(), 0);
    assert_eq!(a.queued_len(), 0);
    assert!(!a.started_draining());
    assert!(!a.frame_ready());
}

#[test]
fn feed_stops_at_a_full_frame() {
    let mut a = BlockAdapter::<f32>::new(4, 2, 1, 8, 0.0).unwrap();
    let input = vec![vec![1.0, 2.0, 3.0, 4.0, 5.0, 6.0], vec![-1.0, -2.0, -3.0, -4.0, -5.0, -6.0]];
    let next = a.feed(&slices(&input), 0).unwrap();
    assert_eq!(next, 4);
    assert!(a.frame_ready());
    assert_eq!(a.frame()[0], vec![1.0, 2.0, 3.0, 4.0]);
    assert_eq!(a.frame()[1], vec![-1.0, -2.0, -3.0, -4.0]);
    // A full accumulator takes nothing more.
    assert_eq!(a.feed(&slices(&input), 4).unwrap(), 4);
    assert_eq!(a.pending_len(), 4);
}

#[test]
fn feed_takes_what_is_left_of_a_short_block() {
    let mut a = BlockAdapter::<f32>::new(4, 1, 1, 8, 0.0).unwrap();
    let input = vec![vec![1.0, 2.0, 3.0]];
    assert_eq!(a.feed(&slices(&input), 1).unwrap(), 3);
    assert_eq!(a.frame()[0], vec![2.0, 3.0]);
    assert!(!a.frame_ready());
}

#[test]
fn feed_refuses_wrong_shapes() {
    let mut a = BlockAdapter::<f32>::new(4, 2, 1, 8, 0.0).unwrap();
    let one = vec![vec![1.0, 2.0]];
    assert_eq!(a.feed(&slices(&one), 0), Err(BufferShapeError::Channels));
    let ragged = vec![vec![1.0, 2.0], vec![1.0]];
    assert_eq!(a.feed(&slices(&ragged), 0), Err(BufferShapeError::Frames));
    let even = vec![vec![1.0, 2.0], vec![3.0, 4.0]];
    assert_eq!(a.feed(&slices(&even), 3), Err(BufferShapeError::Frames));
    assert_eq!(a.pending_len(), 0);
}

#[test]
fn complete_cycle_queues_each_plane() {
    let mut a = BlockAdapter::<f32>::new(2, 1, 2, 1, 0.0).unwrap();
    let input = vec![vec![1.0, 2.0]];
    a.feed(&slices(&input), 0).unwrap();
    assert_eq!(a.complete_cycle(&[10.0, 11.0, 20.0, 21.0]), Ok(()));
    assert_eq!(a.pending_len(), 0);
    assert_eq!(a.queued_len(), 2);
    let (delivery, out) = drain(&mut a, 2, 2);
    assert_eq!(delivery, Delivery::Audio);
    assert_eq!(out, vec![vec![10.0, 11.0], vec![20.0, 21.0]]);
}

#[test]
fn complete_cycle_needs_a_full_frame() {
    let mut a = BlockAdapter::<f32>::new(2, 1, 1, 1, 0.0).unwrap();
    assert_eq!(a.complete_cycle(&[1.0, 2.0]), Err(CycleError::NotReady));
    assert_eq!(a.complete_silent(), Err(CycleError::NotReady));
    assert_eq!(a.queued_len(), 0);
}

#[test]
fn complete_cycle_replaces_a_misshapen_frame_by_silence() {
    let mut a = BlockAdapter::<f32>::new(2, 1, 2, 1, 0.0).unwrap();
    let input = vec![vec![1.0, 2.0]];
    a.feed(&slices(&input), 0).unwrap();
    assert_eq!(a.complete_cycle(&[10.0, 11.0, 20.0]), Err(CycleError::BufferShape));
    assert_eq!(a.pending_len(), 0);
    assert_eq!(a.queued_len(), 2);
    let (_, out) = drain(&mut a, 2, 2);
    assert_eq!(out, vec![vec![0.0, 0.0], vec![0.0, 0.0]]);
}

#[test]
fn drain_waits_for_the_preroll() {
    // Longest block 4: delivery begins with 6 queued frames.
    let mut a = BlockAdapter::<f32>::new(2, 1, 1, 4, 0.0).unwrap();
    let input = vec![vec![1.0, 2.0]];
    for cycle in 0..2 {
        a.feed(&slices(&input), 0).unwrap();
        a.complete_cycle(&[cycle as f32, cycle as f32 + 0.5]).unwrap();
        let (delivery, out) = drain(&mut a, 2, 1);
        assert_eq!(delivery, Delivery::Silence);
        assert_eq!(out, vec![vec![0.0, 0.0]]);
        assert!(!a.started_draining());
    }
    assert_eq!(a.queued_len(), 4);
    a.feed(&slices(&input), 0).unwrap();
    a.complete_cycle(&[2.0, 2.5]).unwrap();
    assert_eq!(a.queued_len(), 6);
    let (delivery, out) = drain(&mut a, 2, 1);
    assert_eq!(delivery, Delivery::Audio);
    assert_eq!(out, vec![vec![0.0, 0.5]]);
    assert!(a.started_draining());
    assert_eq!(a.queued_len(), 4);
}

#[test]
fn drain_pads_with_silence_when_the_queue_runs_dry() {
    let mut a = BlockAdapter::<f32>::new(2, 1, 1, 1, 0.0).unwrap();
    let input = vec![vec![1.0, 2.0]];
    a.feed(&slices(&input), 0).unwrap();
    a.complete_cycle(&[7.0, 8.0]).unwrap();
    let (delivery, out) = drain(&mut a, 3, 1);
    assert_eq!(delivery, Delivery::Audio);
    assert_eq!(out, vec![vec![7.0, 8.0, 0.0]]);
    assert_eq!(a.queued_len(), 0);
    // Once begun, delivery goes on even from an empty queue.
    let (delivery, out) = drain(&mut a, 2, 1);
    assert_eq!(delivery, Delivery::Audio);
    assert_eq!(out, vec![vec![0.0, 0.0]]);
}

#[test]
fn drain_leaves_samples_behind_the_block_alone() {
    let mut a = BlockAdapter::<f32>::new(2, 1, 1, 1, 0.0).unwrap();
    let input = vec![vec![1.0, 2.0]];
    a.feed(&slices(&input), 0).unwrap();
    a.complete_cycle(&[7.0, 8.0]).unwrap();
    let mut out = vec![vec![9.0f32; 4]];
    {
        let mut refs: Vec<&mut [f32]> = out.iter_mut().map(|c| c.as_mut_slice()).collect();
        assert_eq!(a.drain(1, &mut refs), Ok(Delivery::Audio));
    }
    assert_eq!(out, vec![vec![7.0, 9.0, 9.0, 9.0]]);
    assert_eq!(a.queued_len(), 1);
}

#[test]
fn drain_refuses_wrong_shapes() {
    let mut a = BlockAdapter::<f32>::new(2, 1, 2, 1, 0.0).unwrap();
    let mut out = vec![vec![9.0f32; 2]];
    {
        let mut refs: Vec<&mut [f32]> = out.iter_mut().map(|c| c.as_mut_slice()).collect();
        assert_eq!(a.drain(2, &mut refs), Err(BufferShapeError::Channels));
    }
    let mut out = vec![vec![9.0f32; 2], vec![9.0f32; 1]];
    {
        let mut refs: Vec<&mut [f32]> = out.iter_mut().map(|c| c.as_mut_slice()).collect();
        assert_eq!(a.drain(2, &mut refs), Err(BufferShapeError::Frames));
    }
    assert_eq!(out, vec![vec![9.0, 9.0], vec![9.0]]);
}

#[test]
fn advance_stops_for_each_frame_that_can_be_rendered() {
    let mut a = BlockAdapter::<f32>::new(2, 1, 1, 8, 0.0).unwrap();
    let input = vec![vec![1.0, 2.0, 3.0, 4.0, 5.0]];
    let p = a.advance(&slices(&input), 0, true).unwrap();
    assert_eq!(p, Progress { next: 2, step: Step::Render });
    // Asked again before the cycle is completed, the adapter stays put.
    assert_eq!(a.advance(&slices(&input), 2, true).unwrap(), Progress { next: 2, step: Step::Render });
    a.complete_cycle(&[1.5, 2.5]).unwrap();
    let p = a.advance(&slices(&input), 2, true).unwrap();
    assert_eq!(p, Progress { next: 4, step: Step::Render });
    a.complete_cycle(&[3.5, 4.5]).unwrap();
    let p = a.advance(&slices(&input), 4, true).unwrap();
    assert_eq!(p, Progress { next: 5, step: Step::Done });
    assert_eq!(a.pending_len(), 1);
    assert_eq!(a.queued_len(), 4);
}

#[test]
fn advance_completes_with_silence_what_cannot_be_rendered() {
    let mut a = BlockAdapter::<f32>::new(2, 1, 1, 1, 0.0).unwrap();
    let input = vec![vec![1.0, 2.0, 3.0, 4.0, 5.0]];
    let p = a.advance(&slices(&input), 0, false).unwrap();
    assert_eq!(p, Progress { next: 5, step: Step::Done });
    assert_eq!(a.pending_len(), 1);
    assert_eq!(a.queued_len(), 4);
    let (_, out) = drain(&mut a, 4, 1);
    assert_eq!(out, vec![vec![0.0; 4]]);
}
