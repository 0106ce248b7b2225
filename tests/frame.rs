use overlaylib::frame::{Frame, TexturedBuffer};

fn runs(f: &Frame<u32>) -> Vec<(Option<u32>, Vec<u32>)> {
    f.buffers.iter().map(|b| (b.texture, b.vertices.clone())).collect()
}

#[test]
fn same_texture_merges_into_one_run() {
    let mut f: Frame<u32> = Frame::new();
    for i in 0..5u32 {
        f.add_buffer(TexturedBuffer::with_texture_and_buffer(3, vec![i, i + 10]));
    }
    assert_eq!(runs(&f), vec![(Some(3), vec![0, 10, 1, 11, 2, 12, 3, 13, 4, 14])]);
}

#[test]
fn alternating_textures_give_two_runs_per_alternation() {
    let mut f: Frame<u32> = Frame::new();
    for k in 0..4u32 {
        f.add_buffer(TexturedBuffer::with_texture_and_buffer(1, vec![k]));
        f.add_buffer(TexturedBuffer::with_texture_and_buffer(2, vec![k]));
    }
    assert_eq!(f.buffers.len(), 8);
    for (i, b) in f.buffers.iter().enumerate() {
        assert_eq!(b.texture, Some(if i % 2 == 0 { 1 } else { 2 }));
        assert_eq!(b.vertices, vec![i as u32 / 2]);
    }
}

#[test]
fn untextured_shapes_share_a_run_until_a_texture_interrupts() {
    let mut f: Frame<u32> = Frame::new();
    f.add_buffer(TexturedBuffer::with_buffer(vec![1, 2, 3]));
    f.add_buffer(TexturedBuffer::with_buffer(vec![4, 5, 6]));
    f.add_buffer(TexturedBuffer::with_texture_and_buffer(9, vec![7]));
    f.add_buffer(TexturedBuffer::with_buffer(vec![8]));
    assert_eq!(
        runs(&f),
        vec![(None, vec![1, 2, 3, 4, 5, 6]), (Some(9), vec![7]), (None, vec![8])]
    );
}

#[test]
fn empty_buffers_and_constructors() {
    let mut f: Frame<u32> = Frame::new();
    f.add_buffer(TexturedBuffer::with_texture(5));
    f.add_buffer(TexturedBuffer::new());
    f.add_buffer(TexturedBuffer::new());
    assert_eq!(runs(&f), vec![(Some(5), vec![]), (None, vec![])]);
    f.clear();
    assert!(f.buffers.is_empty());
}
