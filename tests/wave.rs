use pod_audio::wave::{
    chunk_count, load_from_bytes, sample_count, LoadError, LoadStep, WaveLoader, CHUNK_SAMPLES,
    CHUNK_SIZE,
};

fn sample_file(prefix: [u8; 2], samples: &[f32]) -> Vec<u8> {
    let mut file = prefix.to_vec();
    for s in samples {
        file.extend_from_slice(&s.to_le_bytes());
    }
    file
}

#[test]
fn forty_thousand_and_two_byte_file_loads_in_four_chunks() {
    let samples: Vec<f32> = (0..10000).map(|i| i as f32 * 0.25 - 100.0).collect();
    let file = sample_file([0xAB, 0xCD], &samples);
    assert_eq!(file.len(), 40002);
    assert_eq!(chunk_count(40002), 4);
    let mut dest = vec![0u32; 10000];
    assert_eq!(load_from_bytes(&file, &mut dest), Ok(10000));
    for i in 0..10000 {
        assert_eq!(f32::from_bits(dest[i]), samples[i]);
    }
}

#[test]
fn encoded_samples_round_trip() {
    let samples: Vec<f32> = (0..5000).map(|i| ((i as f32) * 0.01).sin()).collect();
    let file = sample_file([7, 200], &samples);
    let mut dest = vec![0u32; 5000];
    assert_eq!(load_from_bytes(&file, &mut dest), Ok(5000));
    let back: Vec<f32> = dest.iter().map(|b| f32::from_bits(*b)).collect();
    assert_eq!(back, samples);
}

#[test]
fn chunk_fills_its_own_slots_only() {
    let chunk: Vec<u8> = (0..CHUNK_SIZE).map(|k| (k % 251) as u8).collect();
    let mut loader = WaveLoader::new(30002, 7500).unwrap();
    let mut out = [9u32; CHUNK_SAMPLES];
    assert_eq!(loader.accept_chunk(&chunk, &mut out), 0);
    assert_eq!(loader.next_chunk, 1);
    let mut second = [9u32; CHUNK_SAMPLES];
    assert_eq!(loader.accept_chunk(&chunk, &mut second), CHUNK_SAMPLES);
    assert_eq!(loader.next_step(), LoadStep::ReadChunk(2));
    for j in 0..CHUNK_SAMPLES {
        let k = 4 * j;
        let w = u32::from_le_bytes([chunk[k], chunk[k + 1], chunk[k + 2], chunk[k + 3]]);
        assert_eq!(out[j], w);
        assert_eq!(second[j], w);
    }
}

#[test]
fn chunks_land_contiguously_in_the_file_buffer() {
    let mut file = vec![0xEE, 0xFF];
    for i in 0..7500u32 {
        file.extend_from_slice(&i.to_le_bytes());
    }
    let mut dest = vec![u32::MAX; 7501];
    assert_eq!(load_from_bytes(&file, &mut dest), Ok(7500));
    for i in 0..7500 {
        assert_eq!(dest[i], i as u32);
    }
    assert_eq!(dest[7500], u32::MAX);
}

#[test]
fn loader_steps_through_every_chunk() {
    let mut loader = WaveLoader::new(20005, 5001).unwrap();
    let chunk = vec![1u8; CHUNK_SIZE];
    let mut out = [0u32; CHUNK_SAMPLES];
    assert_eq!(loader.next_step(), LoadStep::ReadChunk(0));
    assert_eq!(loader.accept_chunk(&chunk, &mut out), 0);
    assert_eq!(loader.next_step(), LoadStep::ReadChunk(1));
    assert_eq!(loader.accept_chunk(&chunk[..3], &mut out), CHUNK_SAMPLES);
    assert_eq!(loader.next_step(), LoadStep::Done(5001));
    assert_eq!(out[0], 0x0001_0101);
    assert_eq!(out[CHUNK_SAMPLES - 1], 0);
}

#[test]
fn trailing_partial_chunk_is_not_loaded() {
    let file = sample_file([0, 0], &[1.0, 2.0]);
    let mut dest = vec![5u32; 2];
    assert_eq!(load_from_bytes(&file, &mut dest), Ok(2));
    assert_eq!(dest, vec![5, 5]);
}

#[test]
fn short_final_read_decodes_as_zero() {
    let mut file = vec![0xFFu8; CHUNK_SIZE];
    file[0] = 1;
    file[1] = 2;
    let mut dest = vec![7u32; 2500];
    assert_eq!(load_from_bytes(&file, &mut dest), Ok(2500));
    assert_eq!(dest[0], 0xFFFF_FFFF);
    assert_eq!(dest[2499], 0x0000_FFFF);
}

#[test]
fn small_buffer_is_refused() {
    let file = sample_file([0, 0], &[0.5; 2500]);
    let mut dest = vec![3u32; 2499];
    assert_eq!(load_from_bytes(&file, &mut dest), Err(LoadError::BufferTooSmall));
    assert_eq!(dest, vec![3u32; 2499]);
    assert!(WaveLoader::new(10002, 2499).is_err());
    assert!(WaveLoader::new(10002, 2500).is_ok());
}

#[test]
fn counts_follow_the_length() {
    assert_eq!(sample_count(40002), 10000);
    assert_eq!(sample_count(3), 0);
    assert_eq!(chunk_count(9999), 0);
    assert_eq!(chunk_count(10000), 1);
    assert_eq!(chunk_count(u32::MAX), 429496);
}
