use spatial_audio::adapter::{BlockAdapter, Delivery, Step};
use spatial_audio::decode_node::DecodeNode;
use spatial_audio::layout::pack_planar;
use spatial_audio::params::{DecodeParams, SimulationOutputs, SourceParams, SourcePatch};
use spatial_audio::source_node::SourceNode;

type Source = SourceNode<f32, [f32; 3], f32, f32>;
type Decode = DecodeNode<f32, [f32; 3]>;

const G_D: f32 = 1.0;
const G_R: f32 = 0.3;
const G_V: f32 = 0.1;

/// A stand-in for the acoustic effects of a source: the direct path scales
/// the mono mix of the input into the first ambisonic channel, reflections
/// and reverb scale it into every channel, and the three are mixed with
/// the pipeline's weights.
fn render_source(frame: &Vec<Vec<f32>>, channels: usize, direct: f32, refl: f32, reverb: f32) -> Vec<f32> {
    let frames = frame[0].len();
    let mut mono = vec![0.0f32; frames];
    for channel in frame {
        for (m, s) in mono.iter_mut().zip(channel) {
            *m += *s / frame.len() as f32;
        }
    }
    let mut out = vec![0.0f32; channels * frames];
    for c in 0..channels {
        for i in 0..frames {
            let enc = if c == 0 { mono[i] * direct } else { 0.0 };
            let r = mono[i] * refl;
            let v = mono[i] * reverb;
            out[c * frames + i] = (G_D * enc + G_R * r + G_V * v) / (G_D + G_R + G_V);
        }
    }
    out
}

/// A stand-in for the binaural decoder: both ears get the first ambisonic
/// channel, the left ear plus and the right ear minus the second.
fn render_decode(frame: &Vec<Vec<f32>>) -> Vec<f32> {
    let frames = frame[0].len();
    let mut planar = vec![0.0f32; frame.len() * frames];
    pack_planar(frame, frames, &mut planar).unwrap();
    let mut out = vec![0.0f32; 2 * frames];
    for i in 0..frames {
        let w = planar[i];
        let y = if frame.len() > 1 { planar[frames + i] } else { 0.0 };
        out[i] = w + y;
        out[frames + i] = w - y;
    }
    out
}

fn source_callback(node: &mut Source, input: &[Vec<f32>]) -> (Delivery, Vec<Vec<f32>>, usize) {
    let refs: Vec<&[f32]> = input.iter().map(|c| c.as_slice()).collect();
    let frames = input[0].len();
    let channels = node.adapter().out_channels();
    let mut cycles = 0;
    let mut at = 0;
    loop {
        let progress = node.advance(&refs, at).unwrap();
        at = progress.next;
        match progress.step {
            Step::Render => {
                let params = node.params();
                let outputs = params.simulation_outputs.as_ref().unwrap();
                let reverb = params.reverb_effect_params.unwrap();
                let rendered =
                    render_source(node.frame(), channels, outputs.direct, outputs.reflections, reverb);
                node.complete_cycle(&rendered).unwrap();
                cycles += 1;
            }
            Step::Done => break,
        }
    }
    let mut out = vec![vec![f32::NAN; frames]; channels];
    let delivery = {
        let mut refs: Vec<&mut [f32]> = out.iter_mut().map(|c| c.as_mut_slice()).collect();
        node.drain(frames, &mut refs).unwrap()
    };
    (delivery, out, cycles)
}

fn decode_callback(node: &mut Decode, mask: u64, input: &[Vec<f32>]) -> Option<Vec<Vec<f32>>> {
    if node.skips(mask) {
        return None;
    }
    let refs: Vec<&[f32]> = input.iter().map(|c| c.as_slice()).collect();
    let frames = input[0].len();
    let mut at = 0;
    loop {
        let progress = node.advance(&refs, at).unwrap();
        at = progress.next;
        match progress.step {
            Step::Render => {
                let rendered = render_decode(node.frame());
                node.complete_cycle(&rendered).unwrap();
            }
            Step::Done => break,
        }
    }
    let mut out = vec![vec![f32::NAN; frames]; 2];
    {
        let mut refs: Vec<&mut [f32]> = out.iter_mut().map(|c| c.as_mut_slice()).collect();
        node.drain(frames, &mut refs).unwrap();
    }
    Some(out)
}

fn snapshots(direct: f32, refl: f32, reverb: f32) -> SourceParams<[f32; 3], f32, f32> {
    SourceParams::published(
        [0.0, 0.0, -1.0],
        [0.0, 0.0, 0.0],
        SimulationOutputs { direct, reflections: refl },
        reverb,
    )
}

#[test]
fn silence_passes_through_as_silence() {
    // Frames of 256 samples, order 2, 1024 zero samples, valid zero
    // snapshots: 1024 zeros on each stereo channel.
    let mut source = Source::new(snapshots(0.0, 0.0, 0.0), 2, 2, 256, 256, 0.0).ok().unwrap();
    let mut decode = Decode::new(DecodeParams::new([0.0; 3]), 2, 256, 256, 0.0).ok().unwrap();
    let mut left = Vec::new();
    let mut right = Vec::new();
    for _ in 0..4 {
        let input = vec![vec![0.0f32; 256]; 2];
        let (_, field, cycles) = source_callback(&mut source, &input);
        assert_eq!(cycles, 1);
        assert_eq!(field.len(), 9);
        let stereo = decode_callback(&mut decode, 0, &field).unwrap();
        left.extend_from_slice(&stereo[0]);
        right.extend_from_slice(&stereo[1]);
    }
    assert_eq!(left, vec![0.0f32; 1024]);
    assert_eq!(right, vec![0.0f32; 1024]);
}

#[test]
fn no_snapshot_means_silence_until_the_first_patch() {
    let frame = 4;
    let mut node = Source::new(SourceParams::new([0.0; 3], [0.0; 3]), 1, 1, frame, frame, 0.0)
        .ok()
        .unwrap();
    let input = vec![vec![0.5f32; frame]];
    let mut stream: Vec<Vec<f32>> = vec![Vec::new(); 4];
    // Audio arrives, snapshots do not: every channel stays at exact zero.
    for _ in 0..5 {
        let (_, out, cycles) = source_callback(&mut node, &input);
        assert_eq!(cycles, 0);
        for c in 0..4 {
            assert_eq!(out[c], vec![0.0f32; frame]);
            stream[c].extend_from_slice(&out[c]);
        }
    }
    let queued_before = node.adapter().queued_len();
    let dropped = node.apply_all(vec![
        SourcePatch::SimulationOutputs(Some(SimulationOutputs { direct: 1.0, reflections: 0.0 })),
        SourcePatch::ReverbEffectParams(Some(0.0)),
    ]);
    assert_eq!(dropped, 0);
    // The first cycle after the patch renders, and what it renders is next
    // in line behind what was queued before.
    let (_, out, cycles) = source_callback(&mut node, &input);
    assert_eq!(cycles, 1);
    assert_eq!(node.adapter().queued_len(), queued_before);
    let mut heard = out[0].clone();
    let mut callbacks = 0;
    while heard.iter().all(|s| *s == 0.0) {
        let (_, out, _) = source_callback(&mut node, &input);
        heard = out[0].clone();
        callbacks += 1;
        assert!(callbacks <= queued_before / frame);
    }
    let expected = 0.5 * G_D / (G_D + G_R + G_V);
    assert_eq!(heard, vec![expected; frame]);
}

#[test]
fn a_ready_node_keeps_rendering_through_silent_input() {
    // A stand-in reverb with a tail of one frame: each cycle adds half of
    // the frame before. The node must hand out the silent frame too.
    let frame = 4;
    let mut node = Source::new(snapshots(1.0, 0.0, 0.0), 1, 0, frame, frame, 0.0).ok().unwrap();
    let mut tail = vec![0.0f32; frame];
    let mut rendered_stream = Vec::new();
    let mut blocks = vec![vec![vec![0.0f32; frame]]; 4];
    blocks[0][0][0] = 1.0;
    for input in &blocks {
        let refs: Vec<&[f32]> = input.iter().map(|c| c.as_slice()).collect();
        let p = node.advance(&refs, 0).unwrap();
        assert_eq!(p.step, Step::Render);
        let now = node.frame()[0].clone();
        let rendered: Vec<f32> = now.iter().zip(&tail).map(|(x, t)| x + 0.5 * t).collect();
        tail = rendered.clone();
        node.complete_cycle(&rendered).unwrap();
        rendered_stream.extend_from_slice(&rendered);
        assert_eq!(node.advance(&refs, p.next).unwrap().step, Step::Done);
    }
    // The impulse sounds beyond its own frame and dies away.
    assert_eq!(rendered_stream[0], 1.0);
    assert_eq!(rendered_stream[frame], 0.5);
    assert_eq!(rendered_stream[2 * frame], 0.25);
    assert_eq!(rendered_stream[3 * frame], 0.125);
    let mut out = vec![vec![0.0f32; 4 * frame]];
    {
        let mut refs: Vec<&mut [f32]> = out.iter_mut().map(|c| c.as_mut_slice()).collect();
        assert_eq!(node.drain(4 * frame, &mut refs), Ok(Delivery::Audio));
    }
    assert_eq!(out[0], rendered_stream);
}

/// Runs `blocks` through an adapter whose cycles double every sample, and
/// returns all that the host was handed and the number of cycles.
fn run_partition(frame: usize, max_block: usize, blocks: &[Vec<f32>]) -> (Vec<f32>, usize) {
    let mut adapter = BlockAdapter::<f32>::new(frame, 1, 1, max_block, 0.0).unwrap();
    let mut heard = Vec::new();
    let mut cycles = 0;
    for block in blocks {
        let refs = [block.as_slice()];
        let mut at = 0;
        loop {
            let p = adapter.advance(&refs, at, true).unwrap();
            at = p.next;
            if p.step == Step::Done {
                break;
            }
            let rendered: Vec<f32> = adapter.frame()[0].iter().map(|s| 2.0 * s).collect();
            adapter.complete_cycle(&rendered).unwrap();
            cycles += 1;
        }
        let mut out = vec![f32::NAN; block.len()];
        {
            let mut refs = [out.as_mut_slice()];
            adapter.drain(block.len(), &mut refs).unwrap();
        }
        heard.extend_from_slice(&out);
        // Never more in flight than one frame and the pre-roll.
        let in_flight = adapter.pending_len() + adapter.queued_len();
        assert!(2 * in_flight < 2 * frame + 3 * max_block);
    }
    (heard, cycles)
}

#[test]
fn block_sizes_do_not_change_what_is_heard() {
    let frame = 4;
    let input: Vec<f32> = (1..=48).map(|i| i as f32).collect();
    // Three blocks of four frames each, against forty-eight blocks of one
    // sample each.
    let coarse: Vec<Vec<f32>> = input.chunks(4 * frame).map(|c| c.to_vec()).collect();
    let fine: Vec<Vec<f32>> = input.chunks(1).map(|c| c.to_vec()).collect();
    let (heard_coarse, cycles_coarse) = run_partition(frame, 4 * frame, &coarse);
    let (heard_fine, cycles_fine) = run_partition(frame, 4 * frame, &fine);
    assert_eq!(cycles_coarse, 12);
    assert_eq!(cycles_fine, 12);
    let delay_coarse = heard_coarse.iter().position(|s| *s != 0.0).unwrap();
    let delay_fine = heard_fine.iter().position(|s| *s != 0.0).unwrap();
    // The start-up delay is at most one frame and the pre-roll.
    assert_eq!(delay_coarse, 16);
    assert_eq!(delay_fine, 23);
    assert!(delay_coarse <= frame + 24);
    assert!(delay_fine <= frame + 24);
    // Behind the delay both hear the rendered stream from its beginning.
    let rendered: Vec<f32> = input.iter().map(|s| 2.0 * s).collect();
    assert_eq!(heard_coarse[delay_coarse..], rendered[..48 - delay_coarse]);
    assert_eq!(heard_fine[delay_fine..], rendered[..48 - delay_fine]);
    let common = 48 - delay_fine;
    assert_eq!(
        heard_coarse[delay_coarse..delay_coarse + common],
        heard_fine[delay_fine..delay_fine + common]
    );
}

#[test]
fn k_frames_of_input_make_k_cycles_whatever_the_blocks() {
    let frame = 4;
    let sizes = [3usize, 5, 1, 7, 0, 2, 6];
    assert_eq!(sizes.iter().sum::<usize>(), 6 * frame);
    let blocks: Vec<Vec<f32>> = sizes.iter().map(|n| vec![1.0; *n]).collect();
    let (_, cycles) = run_partition(frame, 8, &blocks);
    assert_eq!(cycles, 6);
    let one: Vec<Vec<f32>> = vec![vec![1.0; 6 * frame]];
    let (_, cycles) = run_partition(frame, 6 * frame, &one);
    assert_eq!(cycles, 6);
}

#[test]
fn a_host_block_equal_to_the_frame_is_heard_one_frame_late() {
    let frame = 4;
    let input: Vec<f32> = (1..=20).map(|i| i as f32).collect();
    let blocks: Vec<Vec<f32>> = input.chunks(frame).map(|c| c.to_vec()).collect();
    let (heard, cycles) = run_partition(frame, frame, &blocks);
    assert_eq!(cycles, 5);
    assert_eq!(heard[..frame], [0.0; 4]);
    let rendered: Vec<f32> = input.iter().map(|s| 2.0 * s).collect();
    assert_eq!(heard[frame..], rendered[..16]);
}

#[test]
fn every_cycle_yields_one_frame_per_output_channel() {
    let mut node = Source::new(snapshots(1.0, 0.5, 0.25), 2, 2, 8, 8, 0.0).ok().unwrap();
    for round in 1..=3 {
        let input = vec![vec![0.2f32; 8], vec![0.4f32; 8]];
        let refs: Vec<&[f32]> = input.iter().map(|c| c.as_slice()).collect();
        let p = node.advance(&refs, 0).unwrap();
        assert_eq!(p.step, Step::Render);
        let rendered = render_source(node.frame(), 9, 1.0, 0.5, 0.25);
        assert_eq!(rendered.len(), 9 * 8);
        assert!(rendered.iter().all(|s| s.is_finite()));
        node.complete_cycle(&rendered).unwrap();
        assert_eq!(node.adapter().queued_len(), round * 8);
        assert_eq!(node.adapter().pending_len(), 0);
    }
}
