use toy_rnn::font::{decode_font_atlas, find_kerning_pair, glyph_index_map};
use toy_rnn::network::Network;
use toy_rnn::neuron::{ActivationFunction, Neuron};
use toy_rnn::scene::connection_pairs;
use toy_rnn::surface::{choose_format_index, choose_present_mode, PresentMode};
use toy_rnn::viewer::{drawable_size, step, RenderOutcome, ViewerAction, ViewerEvent, ViewerState};

#[test]
fn network_layers_follow_the_requested_sizes() {
    let network = Network::new(5, vec![3, 4], 2);
    assert_eq!(network.input_size(), 5);
    assert_eq!(network.hidden_layer_count(), 2);
    assert_eq!(network.layer(0).len(), 3);
    assert_eq!(network.layer(1).len(), 4);
    assert_eq!(network.layer(2).len(), 2);
    assert_eq!(network.output_layer().len(), 2);
    for neuron in network.layer(0) {
        assert_eq!(*neuron, Neuron::new(ActivationFunction::ReLU, 5));
    }
    for neuron in network.layer(1) {
        assert_eq!(*neuron, Neuron::new(ActivationFunction::ReLU, 3));
    }
    for neuron in network.output_layer() {
        assert_eq!(neuron.activation_function, ActivationFunction::Raw);
        assert_eq!(neuron.input_size, 4);
    }
}

#[test]
fn network_with_empty_hidden_layer() {
    let network = Network::new(2, vec![0, 10, 10, 10], 2);
    assert_eq!(network.layer(0).len(), 0);
    assert_eq!(network.layer(1)[0].input_size, 0);
    assert_eq!(network.output_layer()[1].input_size, 10);
}

#[test]
fn connections_follow_weights_and_sources() {
    assert_eq!(
        connection_pairs(&[2, 3], 2),
        vec![(0, 0), (1, 0), (0, 1), (1, 1)]
    );
    assert_eq!(connection_pairs(&[0, 1], 5), vec![(0, 1)]);
    assert_eq!(connection_pairs(&[4], 0), vec![]);
    assert_eq!(connection_pairs(&[], 3), vec![]);
}

#[test]
fn glyph_index_prefers_the_later_glyph() {
    let map = glyph_index_map(&[65, 66, 65, 67]);
    assert_eq!(map.len(), 3);
    assert_eq!(map.get(&65), Some(&2));
    assert_eq!(map.get(&66), Some(&1));
    assert_eq!(map.get(&67), Some(&3));
    assert_eq!(map.get(&68), None);
}

#[test]
fn kerning_finds_the_first_pair() {
    let pairs = [(65, 86), (86, 65), (65, 86)];
    assert_eq!(find_kerning_pair(&pairs, 65, 86), Some(0));
    assert_eq!(find_kerning_pair(&pairs, 86, 65), Some(1));
    assert_eq!(find_kerning_pair(&pairs, 86, 86), None);
    assert_eq!(find_kerning_pair(&[], 1, 2), None);
}

fn ready() -> ViewerState {
    let (state, action) = step(ViewerState::new(), ViewerEvent::Resumed);
    assert_eq!(action, ViewerAction::SetUp);
    let (state, action) = step(state, ViewerEvent::SetUpFinished { succeeded: true });
    assert_eq!(action, ViewerAction::Nothing);
    assert!(state.ready);
    state
}

#[test]
fn viewer_sets_up_once() {
    let state = ready();
    assert_eq!(step(state, ViewerEvent::Resumed).1, ViewerAction::Nothing);
    let (_, action) = step(ViewerState::new(), ViewerEvent::SetUpFinished { succeeded: false });
    assert_eq!(action, ViewerAction::Exit);
    assert_eq!(step(ViewerState::new(), ViewerEvent::AboutToWait).1, ViewerAction::Nothing);
    assert_eq!(step(state, ViewerEvent::AboutToWait).1, ViewerAction::RequestRedraw);
}

#[test]
fn viewer_ignores_window_events_before_set_up() {
    let state = ViewerState::new();
    for event in [
        ViewerEvent::CloseRequested,
        ViewerEvent::CursorMoved,
        ViewerEvent::MouseWheel,
        ViewerEvent::RedrawRequested,
        ViewerEvent::LeftButton { pressed: true },
    ] {
        assert_eq!(step(state, event), (state, ViewerAction::Nothing));
    }
}

#[test]
fn viewer_pans_while_dragging() {
    let state = ready();
    let (state, action) = step(state, ViewerEvent::CursorMoved);
    assert_eq!(action, ViewerAction::Nothing);
    let (state, _) = step(state, ViewerEvent::LeftButton { pressed: true });
    assert!(state.is_panning && state.has_cursor);
    let (state, action) = step(state, ViewerEvent::CursorMoved);
    assert_eq!(action, ViewerAction::PanAndRedraw);
    let (state, _) = step(state, ViewerEvent::LeftButton { pressed: false });
    assert!(!state.is_panning && !state.has_cursor);
    let (state, action) = step(state, ViewerEvent::CursorMoved);
    assert_eq!(action, ViewerAction::Nothing);
    let (state, _) = step(state, ViewerEvent::LeftButton { pressed: true });
    let (_, action) = step(state, ViewerEvent::CursorMoved);
    assert_eq!(action, ViewerAction::PanAndRedraw);
}

#[test]
fn viewer_first_drag_move_only_redraws() {
    let state = ready();
    let (state, _) = step(state, ViewerEvent::LeftButton { pressed: true });
    let (state, action) = step(state, ViewerEvent::CursorMoved);
    assert_eq!(action, ViewerAction::RequestRedraw);
    assert!(state.has_cursor);
}

#[test]
fn viewer_zooms_at_cursor_or_center() {
    let state = ready();
    assert_eq!(step(state, ViewerEvent::MouseWheel).1, ViewerAction::ZoomAtCenter);
    let (state, _) = step(state, ViewerEvent::CursorMoved);
    assert_eq!(step(state, ViewerEvent::MouseWheel).1, ViewerAction::ZoomAtCursor);
}

#[test]
fn viewer_resizes_and_handles_render_results() {
    let state = ready();
    assert_eq!(
        step(state, ViewerEvent::Resized { width: 800, height: 600 }).1,
        ViewerAction::ResizeWindow { resize_surface: true }
    );
    assert_eq!(
        step(state, ViewerEvent::Resized { width: 0, height: 600 }).1,
        ViewerAction::ResizeWindow { resize_surface: false }
    );
    assert_eq!(step(state, ViewerEvent::RedrawRequested).1, ViewerAction::Render);
    let finished = |outcome, width, height| {
        step(state, ViewerEvent::RenderFinished { outcome, width, height }).1
    };
    assert_eq!(finished(RenderOutcome::Presented, 10, 10), ViewerAction::Nothing);
    assert_eq!(finished(RenderOutcome::Lost, 10, 10), ViewerAction::ResizeSurface);
    assert_eq!(finished(RenderOutcome::Outdated, 10, 10), ViewerAction::ResizeSurface);
    assert_eq!(finished(RenderOutcome::Lost, 10, 0), ViewerAction::Nothing);
    assert_eq!(finished(RenderOutcome::OutOfMemory, 10, 10), ViewerAction::Exit);
    assert_eq!(finished(RenderOutcome::Timeout, 10, 10), ViewerAction::ReportRenderError);
    assert_eq!(finished(RenderOutcome::Other, 10, 10), ViewerAction::ReportRenderError);
    assert_eq!(step(state, ViewerEvent::CloseRequested).1, ViewerAction::Exit);
    assert_eq!(step(state, ViewerEvent::Ignored), (state, ViewerAction::Nothing));
}

#[test]
fn drawable_sizes_are_nonzero() {
    assert!(drawable_size(1, 1));
    assert!(!drawable_size(0, 5));
    assert!(!drawable_size(5, 0));
}

#[test]
fn present_mode_prefers_vsync_then_fifo() {
    assert_eq!(
        choose_present_mode(&[PresentMode::Mailbox, PresentMode::Fifo, PresentMode::AutoVsync]),
        PresentMode::AutoVsync
    );
    assert_eq!(
        choose_present_mode(&[PresentMode::Mailbox, PresentMode::Fifo]),
        PresentMode::Fifo
    );
    assert_eq!(
        choose_present_mode(&[PresentMode::Immediate, PresentMode::Mailbox]),
        PresentMode::Immediate
    );
}

#[test]
fn format_prefers_the_first_srgb() {
    assert_eq!(choose_format_index(&[false, true, true]), 1);
    assert_eq!(choose_format_index(&[true]), 0);
    assert_eq!(choose_format_index(&[false, false]), 0);
}

#[test]
fn network_without_hidden_layers_has_no_neurons() {
    let network = Network::new(3, vec![], 0);
    assert_eq!(network.hidden_layer_count(), 0);
    assert_eq!(network.input_size(), 3);
    assert!(network.output_layer().is_empty());
    assert!(network.layer(0).is_empty());
}

fn png_of(width: u32, height: u32, pixels: &[u8]) -> Vec<u8> {
    let image = image::RgbaImage::from_raw(width, height, pixels.to_vec()).unwrap();
    let mut bytes = std::io::Cursor::new(Vec::new());
    image.write_to(&mut bytes, image::ImageFormat::Png).unwrap();
    bytes.into_inner()
}

#[test]
fn font_atlas_decodes_a_png() {
    let pixels = [1, 2, 3, 255, 4, 5, 6, 128, 7, 8, 9, 0, 10, 11, 12, 64, 13, 14, 15, 32, 16, 17, 18, 16];
    let png = png_of(3, 2, &pixels);
    let atlas = decode_font_atlas(&png).unwrap();
    assert_eq!(atlas.width, 3);
    assert_eq!(atlas.height, 2);
    assert_eq!(atlas.bytes_per_row, 12);
    assert_eq!(atlas.rows_per_image, 2);
    assert_eq!(atlas.pixels, pixels.to_vec());
}

#[test]
fn font_atlas_rejects_bytes_that_are_no_image() {
    assert_eq!(decode_font_atlas(b"not an image at all"), None);
    assert_eq!(decode_font_atlas(&[]), None);
}
