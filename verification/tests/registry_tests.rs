use soft_rasterizer::{Buffer, ColBufId, IndBufId, PosBufId, Primitive, Rasterizer, Rgb};

fn kind_name(k: &Primitive) -> u8 {
    match k {
        Primitive::Line => 1,
        Primitive::Triangle => 2,
    }
}

fn buffer_name(b: &Buffer) -> u8 {
    match b {
        Buffer::Color => 1,
        Buffer::Depth => 2,
        Buffer::Both => 3,
    }
}

fn copy_pos(id: PosBufId) -> (PosBufId, PosBufId) {
    (id, id)
}

fn copy_ind(id: IndBufId) -> (IndBufId, IndBufId) {
    (id, id)
}

fn takes_col(_id: Option<ColBufId>) -> bool {
    true
}

#[test]
fn enums_have_their_variants() {
    assert_eq!(kind_name(&Primitive::Line), 1);
    assert_eq!(kind_name(&Primitive::Triangle), 2);
    assert_eq!(buffer_name(&Buffer::Color), 1);
    assert_eq!(buffer_name(&Buffer::Depth), 2);
    assert_eq!(buffer_name(&Buffer::Both), 3);
    assert!(takes_col(None));
}

#[test]
fn new_rasterizer_has_black_frame_of_canvas_size() {
    let r: Rasterizer<(i32, i32, i32)> = Rasterizer::new(7, 5);
    assert_eq!(r.frame_buf, vec![Rgb(0, 0, 0); 35]);
}

#[test]
fn new_rasterizer_with_empty_canvas() {
    let r: Rasterizer<u8> = Rasterizer::new(0, 100);
    assert_eq!(r.frame_buf.len(), 0);
    let q: Rasterizer<u8> = Rasterizer::new(100, 0);
    assert_eq!(q.frame_buf.len(), 0);
}

#[test]
fn positions_come_back_as_uploaded() {
    let mut r: Rasterizer<(i32, i32, i32)> = Rasterizer::new(4, 4);
    let points = vec![(2, 0, -2), (0, 2, -2), (-2, 0, -2)];
    let id = r.load_position(&points);
    assert_eq!(r.positions(id), &points);
}

#[test]
fn indices_come_back_as_uploaded() {
    let mut r: Rasterizer<u8> = Rasterizer::new(4, 4);
    let faces = vec![[0, 1, 2], [2, 1, 3]];
    let id = r.load_indices(&faces);
    assert_eq!(r.indices(id), &faces);
}

#[test]
fn empty_buffers_come_back_empty() {
    let mut r: Rasterizer<u8> = Rasterizer::new(4, 4);
    let p = r.load_position(&Vec::new());
    let i = r.load_indices(&Vec::new());
    assert!(r.positions(p).is_empty());
    assert!(r.indices(i).is_empty());
}

#[test]
fn upload_takes_a_copy() {
    let mut r: Rasterizer<u8> = Rasterizer::new(4, 4);
    let mut points = vec![1, 2, 3];
    let id = r.load_position(&points);
    points[0] = 99;
    points.push(4);
    assert_eq!(r.positions(id), &vec![1, 2, 3]);
}

#[test]
fn handles_are_numbered_from_zero_in_order_of_issue() {
    let mut r: Rasterizer<u8> = Rasterizer::new(4, 4);
    let a = r.load_position(&vec![1]);
    let b = r.load_indices(&vec![[0, 0, 0]]);
    let c = r.load_position(&vec![2]);
    let d = r.load_position(&vec![3]);
    let e = r.load_indices(&vec![[1, 1, 1]]);
    assert_eq!(a.index(), 0);
    assert_eq!(b.index(), 1);
    assert_eq!(c.index(), 2);
    assert_eq!(d.index(), 3);
    assert_eq!(e.index(), 4);
}

#[test]
fn later_uploads_leave_earlier_buffers_alone() {
    let mut r: Rasterizer<u8> = Rasterizer::new(4, 4);
    let a = r.load_position(&vec![1, 2]);
    let b = r.load_indices(&vec![[0, 1, 0]]);
    let c = r.load_position(&vec![3, 4, 5]);
    let d = r.load_indices(&vec![[2, 2, 2], [1, 0, 1]]);
    assert_eq!(r.positions(a), &vec![1, 2]);
    assert_eq!(r.indices(b), &vec![[0, 1, 0]]);
    assert_eq!(r.positions(c), &vec![3, 4, 5]);
    assert_eq!(r.indices(d), &vec![[2, 2, 2], [1, 0, 1]]);
}

#[test]
fn handles_can_be_copied() {
    let mut r: Rasterizer<u8> = Rasterizer::new(4, 4);
    let a = r.load_position(&vec![1, 2]);
    let b = r.load_indices(&vec![[0, 1, 0]]);
    let (a1, a2) = copy_pos(a);
    let (b1, b2) = copy_ind(b);
    assert_eq!(r.positions(a1), r.positions(a2));
    assert_eq!(r.indices(b1), r.indices(b2));
    assert_eq!(a1.index(), a2.index());
    assert_eq!(b1.index(), b2.index());
}

#[test]
fn uploads_do_not_touch_the_frame() {
    let mut r: Rasterizer<u8> = Rasterizer::new(3, 2);
    r.frame_buf[4] = Rgb(1, 2, 3);
    let before = r.frame_buf.clone();
    r.load_position(&vec![1, 2]);
    r.load_indices(&vec![[0, 1, 0]]);
    assert_eq!(r.frame_buf, before);
}

#[test]
fn clear_resets_the_frame_and_keeps_the_buffers() {
    let mut r: Rasterizer<u8> = Rasterizer::new(3, 2);
    let a = r.load_position(&vec![1, 2]);
    r.frame_buf[0] = Rgb(1, 2, 3);
    r.frame_buf[5] = Rgb(255, 255, 255);
    r.clear();
    assert_eq!(r.frame_buf, vec![Rgb(0, 0, 0); 6]);
    assert_eq!(r.positions(a), &vec![1, 2]);
    let b = r.load_position(&vec![7]);
    assert_eq!(b.index(), 1);
}

#[test]
fn canvas_size_and_depth_buffer() {
    let r: Rasterizer<u8> = Rasterizer::new(7, 5);
    assert_eq!(r.width(), 7);
    assert_eq!(r.height(), 5);
    assert_eq!(r.depth_buf(), &vec![0; 35]);
    assert_eq!(r.depth_buf().len(), r.frame_buf.len());
    assert_eq!(r.frame(), &r.frame_buf);
}

#[test]
fn issued_counts_the_handles() {
    let mut r: Rasterizer<u8> = Rasterizer::new(2, 2);
    assert_eq!(r.issued(), 0);
    r.load_position(&vec![1]);
    assert_eq!(r.issued(), 1);
    r.load_indices(&vec![[0, 0, 0]]);
    assert_eq!(r.issued(), 2);
}

#[test]
fn handles_of_another_rasterizer_are_told_apart() {
    let mut a: Rasterizer<u8> = Rasterizer::new(2, 2);
    let mut b: Rasterizer<u8> = Rasterizer::new(2, 2);
    let i0 = a.load_indices(&vec![[0, 0, 0]]);
    let p1 = a.load_position(&vec![1]);
    let p0 = b.load_position(&vec![1]);
    assert!(a.has_positions(p1));
    assert!(a.has_indices(i0));
    assert!(b.has_positions(p0));
    assert!(!b.has_positions(p1));
    assert!(!b.has_indices(i0));
    assert!(!a.has_positions(p0));
}

#[test]
fn can_draw_wants_every_index_in_range() {
    let mut r: Rasterizer<u8> = Rasterizer::new(2, 2);
    let pos = r.load_position(&vec![1, 2, 3]);
    let good = r.load_indices(&vec![[0, 1, 2], [2, 2, 0]]);
    let bad = r.load_indices(&vec![[0, 1, 2], [0, 3, 1]]);
    let none = r.load_indices(&Vec::new());
    assert!(r.can_draw(pos, good));
    assert!(!r.can_draw(pos, bad));
    assert!(r.can_draw(pos, none));
    let mut other: Rasterizer<u8> = Rasterizer::new(2, 2);
    other.load_position(&vec![1, 2, 3]);
    other.load_position(&vec![1, 2, 3]);
    other.load_position(&vec![1, 2, 3]);
    other.load_position(&vec![1, 2, 3]);
    let stray = other.load_position(&vec![1, 2, 3]);
    assert!(!r.can_draw(stray, good));
}
