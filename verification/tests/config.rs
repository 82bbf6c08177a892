use spatial_audio::config::{
    ambisonic_channels, impulse_response_size, AMBISONICS_NUM_CHANNELS, AMBISONICS_ORDER,
    BINAURAL_CHANNELS, FRAME_SIZE, MAX_NUM_SOURCES, MAX_OCCLUSION_SAMPLES, NUM_BOUNCES,
    NUM_DIFFUSE_SAMPLES, NUM_RAYS, REVERB_DURATION_SECONDS, SIMULATION_THREADS, TRANSMISSION_RAYS,
};
use spatial_audio::error::ConstructionError;
use spatial_audio::layout::pack_planar;
use spatial_audio::error::BufferShapeError;
use spatial_audio::ports::{
    bus_connections, decode_ports, port_layout, source_ports, PortLayout, MAX_PORT_CHANNELS,
};

#[test]
fn constants_are_the_configured_ones() {
    assert_eq!(FRAME_SIZE, 256);
    assert_eq!(AMBISONICS_ORDER, 2);
    assert_eq!(AMBISONICS_NUM_CHANNELS, 9);
    assert_eq!(BINAURAL_CHANNELS, 2);
    assert_eq!(MAX_OCCLUSION_SAMPLES, 16);
    assert_eq!(NUM_RAYS, 2048);
    assert_eq!(NUM_BOUNCES, 8);
    assert_eq!(NUM_DIFFUSE_SAMPLES, 8);
    assert_eq!(TRANSMISSION_RAYS, 8);
    assert_eq!(REVERB_DURATION_SECONDS, 2);
    assert_eq!(MAX_NUM_SOURCES, 8);
    assert_eq!(SIMULATION_THREADS, 1);
}

#[test]
fn channels_are_the_square_of_order_plus_one() {
    assert_eq!(ambisonic_channels(0), Some(1));
    assert_eq!(ambisonic_channels(1), Some(4));
    assert_eq!(ambisonic_channels(2), Some(9));
    assert_eq!(ambisonic_channels(3), Some(16));
    assert_eq!(ambisonic_channels(AMBISONICS_ORDER), Some(AMBISONICS_NUM_CHANNELS));
    assert_eq!(ambisonic_channels(usize::MAX), None);
    assert_eq!(ambisonic_channels(usize::MAX / 2), None);
}

#[test]
fn impulse_response_covers_the_reverb_tail() {
    assert_eq!(impulse_response_size(48000), Some(96000));
    assert_eq!(impulse_response_size(44100), Some(88200));
    assert_eq!(impulse_response_size(0), Some(0));
    assert_eq!(impulse_response_size(usize::MAX), None);
}

#[test]
fn port_layout_asks_the_host_for_its_limit() {
    assert_eq!(port_layout(2, 9), Ok(PortLayout { inputs: 2, outputs: 9 }));
    assert_eq!(port_layout(0, 64), Ok(PortLayout { inputs: 0, outputs: 64 }));
    assert_eq!(MAX_PORT_CHANNELS, 64);
    assert_eq!(port_layout(65, 2), Err(ConstructionError::UnsupportedChannelCount));
    assert_eq!(port_layout(2, 65), Err(ConstructionError::UnsupportedChannelCount));
    assert_eq!(port_layout(usize::MAX, 2), Err(ConstructionError::UnsupportedChannelCount));
}

#[test]
fn source_ports_go_from_the_signal_to_the_sound_field() {
    assert_eq!(source_ports(2, 2), Ok(PortLayout { inputs: 2, outputs: 9 }));
    assert_eq!(source_ports(1, 1), Ok(PortLayout { inputs: 1, outputs: 4 }));
    assert_eq!(source_ports(2, 7), Ok(PortLayout { inputs: 2, outputs: 64 }));
    assert_eq!(source_ports(2, 8), Err(ConstructionError::UnsupportedChannelCount));
    assert_eq!(source_ports(2, usize::MAX), Err(ConstructionError::UnsupportedChannelCount));
}

#[test]
fn decode_ports_go_from_the_sound_field_to_two_ears() {
    assert_eq!(decode_ports(2), Ok(PortLayout { inputs: 9, outputs: 2 }));
    assert_eq!(decode_ports(7), Ok(PortLayout { inputs: 64, outputs: 2 }));
    assert_eq!(decode_ports(8), Err(ConstructionError::UnsupportedChannelCount));
}

#[test]
fn bus_connections_pair_each_port_with_itself() {
    assert_eq!(
        bus_connections(9),
        vec![(0, 0), (1, 1), (2, 2), (3, 3), (4, 4), (5, 5), (6, 6), (7, 7), (8, 8)]
    );
    assert!(bus_connections(0).is_empty());
}

#[test]
fn pack_planar_lays_the_channels_end_to_end() {
    let block = vec![vec![1.0f32, 2.0, 3.0], vec![4.0, 5.0, 6.0]];
    let mut out = [0.0f32; 6];
    assert_eq!(pack_planar(&block, 3, &mut out), Ok(()));
    assert_eq!(out, [1.0, 2.0, 3.0, 4.0, 5.0, 6.0]);
}

#[test]
fn pack_planar_refuses_what_does_not_fit() {
    let block = vec![vec![1.0f32, 2.0, 3.0], vec![4.0, 5.0, 6.0]];
    let mut short = [9.0f32; 5];
    assert_eq!(pack_planar(&block, 3, &mut short), Err(BufferShapeError::Frames));
    assert_eq!(short, [9.0; 5]);
    let mut out = [9.0f32; 4];
    assert_eq!(pack_planar(&block, 2, &mut out), Err(BufferShapeError::Frames));
    assert_eq!(out, [9.0; 4]);
    let ragged = vec![vec![1.0f32, 2.0], vec![4.0]];
    assert_eq!(pack_planar(&ragged, 2, &mut out), Err(BufferShapeError::Frames));
    assert_eq!(out, [9.0; 4]);
    let empty: Vec<Vec<f32>> = vec![];
    let mut nothing: [f32; 0] = [];
    assert_eq!(pack_planar(&empty, 4, &mut nothing), Ok(()));
}
