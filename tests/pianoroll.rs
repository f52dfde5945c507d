use pianoroll::color::ColorKind::{BackgroundColor, ForegroundColor};
use pianoroll::color::{nearest_color_index, ColorKind, ParseError};
use pianoroll::colormatch::{ColorMatch, MatchError};
use pianoroll::image::{average_colors, decode_frame, grid_from_samples, FrameError, PixelGrid};
use pianoroll::keyboard::{is_key_full_tone, key_states, key_states_for_widths, key_windows};
use pianoroll::midi::{midi_events, recognize_colors_in_files, states_of_matches};
use pianoroll::notes::note_name_to_midi_id;
use pianoroll::sequencer::{sequence_events, NoteEvent, NoteKind, TICK_STEP, VELOCITY};

fn encode_png(width: u32, height: u32, color: png::ColorType, data: &[u8]) -> Vec<u8> {
    let mut out: Vec<u8> = Vec::new();
    {
        let mut encoder = png::Encoder::new(&mut out, width, height);
        encoder.set_color(color);
        encoder.set_depth(png::BitDepth::Eight);
        let mut writer = encoder.write_header().unwrap();
        writer.write_image_data(data).unwrap();
    }
    out
}

fn event(tick: u64, note: usize, kind: NoteKind) -> NoteEvent {
    NoteEvent { tick, note, kind, velocity: VELOCITY }
}

#[test]
fn parse_colors() {
    assert_eq!(
        "b0:0:0".parse::<ColorKind>().unwrap(),
        BackgroundColor((0, 0, 0))
    );
    assert_eq!(
        "0:0:0".parse::<ColorKind>().unwrap(),
        ForegroundColor((0, 0, 0))
    );
    assert_eq!(
        "b255:14:253".parse::<ColorKind>().unwrap(),
        BackgroundColor((255, 14, 253))
    );
    assert_eq!(
        "b000255:000000000000014:000253"
            .parse::<ColorKind>()
            .unwrap(),
        BackgroundColor((255, 14, 253))
    );
    assert_eq!(
        "252:14:255".parse::<ColorKind>().unwrap(),
        ForegroundColor((252, 14, 255))
    );
    assert!("256:0:0".parse::<ColorKind>().is_err());
    assert!("b256:0:0".parse::<ColorKind>().is_err());
    assert!("a0:0:0".parse::<ColorKind>().is_err());
    assert!("-4:0:0".parse::<ColorKind>().is_err());
    assert!("4:18:-24".parse::<ColorKind>().is_err());
}

#[test]
fn note_to_midi() {
    assert_eq!(note_name_to_midi_id("G0"), None);
    assert_eq!(note_name_to_midi_id("A0"), Some(21));
    assert_eq!(note_name_to_midi_id("B0"), Some(23));
    assert_eq!(note_name_to_midi_id("H0"), Some(23));
    assert_eq!(note_name_to_midi_id("C2"), Some(36));
    assert_eq!(note_name_to_midi_id("D2"), Some(38));
    assert_eq!(note_name_to_midi_id("H2"), Some(47));
    assert_eq!(note_name_to_midi_id("C8"), Some(108));
    assert_eq!(note_name_to_midi_id("G6"), Some(91));
    assert_eq!(note_name_to_midi_id("E8"), None);
    assert_eq!(note_name_to_midi_id("A9"), None);
}

#[test]
fn color_parse_rejects_malformed() {
    assert_eq!("".parse::<ColorKind>(), Err(ParseError::BadColorFormat));
    assert_eq!("1:2".parse::<ColorKind>(), Err(ParseError::BadColorFormat));
    assert_eq!("1:2:3:4".parse::<ColorKind>(), Err(ParseError::BadColorFormat));
    assert_eq!("1::3".parse::<ColorKind>(), Err(ParseError::BadColorFormat));
    assert_eq!("b".parse::<ColorKind>(), Err(ParseError::BadColorFormat));
    assert_eq!("1:2:3".parse::<ColorKind>(), Ok(ForegroundColor((1, 2, 3))));
}

#[test]
fn note_names_with_prefix_and_space() {
    assert_eq!(note_name_to_midi_id("#C4"), Some(61));
    assert_eq!(note_name_to_midi_id("bA0"), None);
    assert_eq!(note_name_to_midi_id("#C8"), None);
    assert_eq!(note_name_to_midi_id("#A0"), Some(22));
    assert_eq!(note_name_to_midi_id("bC8"), Some(107));
    assert_eq!(note_name_to_midi_id("bE4"), Some(63));
    assert_eq!(note_name_to_midi_id(" C4 "), Some(60));
    assert_eq!(note_name_to_midi_id("#\tD2\n"), Some(39));
    assert_eq!(note_name_to_midi_id("c4"), None);
    assert_eq!(note_name_to_midi_id("C 4"), None);
    assert_eq!(note_name_to_midi_id("C"), None);
    assert_eq!(note_name_to_midi_id(""), None);
    assert_eq!(note_name_to_midi_id("\u{e9}"), None);
}

#[test]
fn distance_ignores_tag() {
    assert_eq!(ForegroundColor((1, 2, 3)).get_distance_to_color((4, 6, 3)), 25);
    assert_eq!(BackgroundColor((1, 2, 3)).get_distance_to_color((4, 6, 3)), 25);
    assert_eq!(BackgroundColor((0, 0, 0)).get_distance_to_color((255, 255, 255)), 195075);
}

#[test]
fn nearest_color_picks_minimum() {
    let palette = vec![BackgroundColor((0, 0, 0)), ForegroundColor((255, 0, 0))];
    assert_eq!(nearest_color_index(&palette, (200, 0, 0)), 1);
    assert_eq!(nearest_color_index(&palette, (20, 0, 0)), 0);
}

#[test]
fn nearest_color_tie_goes_to_first() {
    let palette = vec![
        ForegroundColor((10, 0, 0)),
        BackgroundColor((0, 0, 0)),
        ForegroundColor((0, 0, 0)),
    ];
    assert_eq!(nearest_color_index(&palette, (0, 0, 0)), 1);
    let tied = vec![ForegroundColor((10, 0, 0)), BackgroundColor((0, 0, 0))];
    assert_eq!(nearest_color_index(&tied, (5, 0, 0)), 0);
}

#[test]
fn average_rounds_down() {
    assert_eq!(average_colors(&vec![(1, 2, 3), (2, 3, 5)]), (1, 2, 4));
    assert_eq!(average_colors(&vec![(255, 255, 255); 1000]), (255, 255, 255));
}

#[test]
fn classify_columns_by_mean() {
    let pixels = vec![(250, 0, 0), (0, 0, 0), (150, 0, 0), (0, 0, 10)];
    let grid = PixelGrid::new(2, 2, pixels).unwrap();
    let palette = vec![BackgroundColor((0, 0, 0)), ForegroundColor((255, 0, 0))];
    let m = ColorMatch::from_image(&grid, &palette).unwrap();
    assert_eq!(m.indices, vec![1, 0]);
    assert_eq!(m.data, vec![ForegroundColor((255, 0, 0)), BackgroundColor((0, 0, 0))]);
    assert_eq!(m.foreground_columns(), vec![true, false]);
}

#[test]
fn classify_errors() {
    let grid = PixelGrid::new(1, 1, vec![(0, 0, 0)]).unwrap();
    assert_eq!(
        ColorMatch::from_image(&grid, &Vec::new()).err(),
        Some(MatchError::EmptyPalette)
    );
    let flat = PixelGrid::new(2, 0, Vec::new()).unwrap();
    let palette = vec![BackgroundColor((0, 0, 0))];
    assert_eq!(ColorMatch::from_image(&flat, &palette).err(), Some(MatchError::EmptyImage));
    let empty = PixelGrid::new(0, 0, Vec::new()).unwrap();
    assert_eq!(ColorMatch::from_image(&empty, &palette).unwrap().data, Vec::new());
    assert!(PixelGrid::new(2, 2, vec![(0, 0, 0)]).is_none());
}

#[test]
fn samples_to_pixels() {
    let gray = grid_from_samples(2, 1, 0, &vec![7, 9]).unwrap();
    assert_eq!(gray.pixels(), &vec![(7, 7, 7), (9, 9, 9)]);
    let gray_alpha = grid_from_samples(2, 1, 4, &vec![7, 1, 9, 2]).unwrap();
    assert_eq!(gray_alpha.pixels(), &vec![(7, 7, 7), (9, 9, 9)]);
    let rgba = grid_from_samples(2, 1, 6, &vec![1, 2, 3, 4, 5, 6, 7, 8]).unwrap();
    assert_eq!(rgba.pixels(), &vec![(1, 2, 3), (5, 6, 7)]);
    let rgb = grid_from_samples(1, 2, 2, &vec![1, 2, 3, 4, 5, 6]).unwrap();
    assert_eq!(rgb.pixels(), &vec![(1, 2, 3), (4, 5, 6)]);
    assert_eq!((rgb.width(), rgb.height()), (1, 2));
    assert_eq!(grid_from_samples(1, 1, 3, &vec![0]).err(), Some(FrameError::UnsupportedFormat));
    assert_eq!(grid_from_samples(2, 1, 2, &vec![1, 2, 3]).err(), Some(FrameError::SampleCount));
}

#[test]
fn decode_png_file() {
    let bytes = encode_png(2, 1, png::ColorType::RGB, &[255, 0, 0, 0, 0, 0]);
    let grid = decode_frame(&bytes).unwrap();
    assert_eq!((grid.width(), grid.height()), (2, 1));
    assert_eq!(grid.pixels(), &vec![(255, 0, 0), (0, 0, 0)]);
    assert_eq!(decode_frame(&[1, 2, 3]).err(), Some(FrameError::Decode));
    let palette = vec![BackgroundColor((0, 0, 0)), ForegroundColor((255, 0, 0))];
    let m = ColorMatch::from_png(&bytes, &palette).unwrap();
    assert_eq!(m.foreground_columns(), vec![true, false]);
    assert_eq!(
        ColorMatch::from_png(&[1, 2, 3], &palette).err(),
        Some(MatchError::Frame(FrameError::Decode))
    );
}

#[test]
fn failed_frames_are_skipped() {
    let palette = vec![BackgroundColor((0, 0, 0)), ForegroundColor((255, 0, 0))];
    let frames = vec![
        encode_png(2, 1, png::ColorType::RGB, &[255, 0, 0, 0, 0, 0]),
        vec![0, 1, 2],
        encode_png(2, 1, png::ColorType::RGB, &[0, 0, 0, 255, 0, 0]),
    ];
    let matches = recognize_colors_in_files(&frames, &palette);
    assert_eq!(matches.len(), 2);
    assert_eq!(matches[0].foreground_columns(), vec![true, false]);
    assert_eq!(matches[1].foreground_columns(), vec![false, true]);
    assert_eq!(recognize_colors_in_files(&frames, &Vec::new()).len(), 0);
}

#[test]
fn key_weights_repeat_each_octave() {
    assert!(is_key_full_tone(21));
    assert!(!is_key_full_tone(22));
    assert!(!is_key_full_tone(23));
    assert!(is_key_full_tone(24));
    assert!(!is_key_full_tone(28));
    assert!(is_key_full_tone(29));
    for note in 0..200usize {
        assert_eq!(is_key_full_tone(note), is_key_full_tone(note + 12));
    }
}

#[test]
fn partition_rounds_down() {
    assert_eq!(key_windows(21, 24, 10), vec![2, 1, 1, 2]);
    assert_eq!(key_windows(21, 24, 13), vec![4, 2, 2, 4]);
    assert_eq!(key_windows(21, 24, 5), vec![0, 0, 0, 0]);
    for width in 0..40usize {
        let total: usize = key_windows(21, 40, width).iter().sum();
        assert!(total <= width);
    }
}

#[test]
fn windows_do_not_overlap() {
    assert_eq!(key_states_for_widths(&vec![true, false, true], &vec![2, 1]), vec![false, true]);
    assert_eq!(key_states_for_widths(&vec![true, true, false], &vec![2, 1]), vec![true, false]);
    assert_eq!(key_states_for_widths(&vec![false], &vec![0, 1]), vec![true, false]);
}

#[test]
fn key_states_for_note_range() {
    let columns = vec![true, true, false, true, true, true, false];
    assert_eq!(key_states(&columns, 21, 24), vec![true, false, true, true]);
    assert_eq!(key_states(&vec![false; 3], 21, 24), vec![true, true, true, true]);
}

#[test]
fn sequencer_quiet_and_toggle() {
    let quiet = vec![vec![false, false], vec![false, false]];
    assert_eq!(sequence_events(&quiet, 60, 61, TICK_STEP), Vec::new());
    let toggle = vec![vec![true], vec![false], vec![true]];
    let events = sequence_events(&toggle, 60, 60, TICK_STEP);
    assert_eq!(
        events,
        vec![
            event(0, 60, NoteKind::On),
            event(120, 60, NoteKind::Off),
            event(240, 60, NoteKind::On),
        ]
    );
    assert_eq!(sequence_events(&toggle, 60, 60, TICK_STEP), events);
}

#[test]
fn sequencer_orders_by_tick_then_key() {
    let frames = vec![vec![false, true, true], vec![true, true, false]];
    assert_eq!(
        sequence_events(&frames, 30, 32, 10),
        vec![
            event(0, 31, NoteKind::On),
            event(0, 32, NoteKind::On),
            event(10, 30, NoteKind::On),
            event(10, 32, NoteKind::Off),
        ]
    );
}

#[test]
fn end_to_end_two_frames() {
    let palette = vec![ForegroundColor((255, 0, 0)), BackgroundColor((0, 0, 0))];
    let pressed = PixelGrid::new(4, 1, vec![(250, 0, 0); 4]).unwrap();
    let released = PixelGrid::new(4, 1, vec![(5, 5, 5); 4]).unwrap();
    let mut frames: Vec<Vec<bool>> = Vec::new();
    for grid in [&pressed, &released] {
        let m = ColorMatch::from_image(grid, &palette).unwrap();
        frames.push(key_states_for_widths(&m.foreground_columns(), &vec![1, 1, 1, 1]));
    }
    assert_eq!(frames, vec![vec![true; 4], vec![false; 4]]);
    let events = sequence_events(&frames, 60, 63, TICK_STEP);
    let mut expected = Vec::new();
    for note in 60..64 {
        expected.push(event(0, note, NoteKind::On));
    }
    for note in 60..64 {
        expected.push(event(TICK_STEP, note, NoteKind::Off));
    }
    assert_eq!(events, expected);
}

#[test]
fn events_from_classified_frames() {
    let palette = vec![ForegroundColor((255, 0, 0)), BackgroundColor((0, 0, 0))];
    let pressed = PixelGrid::new(6, 1, vec![(250, 0, 0); 6]).unwrap();
    let released = PixelGrid::new(6, 1, vec![(0, 0, 0); 6]).unwrap();
    let matches = vec![
        ColorMatch::from_image(&pressed, &palette).unwrap(),
        ColorMatch::from_image(&released, &palette).unwrap(),
    ];
    assert_eq!(states_of_matches(&matches, 21, 24), vec![vec![true; 4], vec![false; 4]]);
    let events = midi_events(&matches, 21, 24);
    assert_eq!(events.len(), 8);
    assert_eq!(events[0], event(0, 21, NoteKind::On));
    assert_eq!(events[7], event(120, 24, NoteKind::Off));
}
