//! The rasterizer: a canvas with its frame and depth buffers, and a registry
//! of uploaded vertex and index buffers that are named by handles.

use crate::canvas::{lemma_painted_concat, lemma_painted_nothing, painted};
use crate::point::Point3;
use crate::rgb::Rgb;
use crate::triangle::{wireframe, wireframes, Triangle};
use std::collections::HashMap;
use vstd::prelude::*;

verus! {

/// Which of the rasterizer's buffers an operation is about.
pub enum Buffer {
    Color,
    Depth,
    Both,
}

/// How the vertices of an index buffer are put together.
pub enum Primitive {
    Line,
    Triangle,
}

/// The handle of an uploaded position buffer.
#[derive(Clone, Copy)]
pub struct PosBufId(usize);

/// The handle of an uploaded index buffer.
#[derive(Clone, Copy)]
pub struct IndBufId(usize);

/// The handle of an uploaded colour buffer.
#[derive(Clone, Copy)]
pub struct ColBufId(usize);

/// A software rasterizer over vertices of type `V`.
///
/// The rasterizer stores vertices and hands them back, but never looks inside
/// one: what turns a vertex into a point of the screen is given to `draw`.
pub struct Rasterizer<V> {
    width: u32,
    height: u32,
    ind_buf: HashMap<usize, Vec<[usize; 3]>>,
    pos_buf: HashMap<usize, Vec<V>>,
    depth_buf: Vec<i32>,
    next_id: usize,
    pub frame_buf: Vec<Rgb>,
}

impl PosBufId {
    /// The number of the handle.
    pub closed spec fn id(self) -> int {
        self.0 as int
    }

    /// The number of the handle: how many handles the registry had issued
    /// before this one.
    pub fn index(&self) -> (n: usize)
        ensures
            n == self.id(),
    {
        self.0
    }
}

impl IndBufId {
    /// The number of the handle.
    pub closed spec fn id(self) -> int {
        self.0 as int
    }

    /// The number of the handle: how many handles the registry had issued
    /// before this one.
    pub fn index(&self) -> (n: usize)
        ensures
            n == self.id(),
    {
        self.0
    }
}

/// The state of a rasterizer, as mathematics.
pub struct RasterizerModel<V> {
    /// The width of the canvas, in pixels.
    pub width: int,
    /// The height of the canvas, in pixels.
    pub height: int,
    /// The uploaded position buffers, by the number of their handle.
    pub positions: Map<int, Seq<V>>,
    /// The uploaded index buffers, by the number of their handle.
    pub indices: Map<int, Seq<[usize; 3]>>,
    /// The number of handles issued so far.
    pub issued: int,
    /// The frame buffer.
    pub frame: Seq<Rgb>,
    /// The depth buffer.
    pub depth: Seq<i32>,
}

impl<V> RasterizerModel<V> {
    /// The invariant of the state: both buffers have one cell for each pixel
    /// of the canvas, and the handles issued are the numbers below `issued`,
    /// each for one buffer, of positions or of indices.
    pub open spec fn wf(self) -> bool {
        &&& self.frame.len() == self.width * self.height
        &&& self.depth.len() == self.width * self.height
        &&& 0 <= self.issued <= usize::MAX
        &&& forall|k: int| #[trigger] self.positions.contains_key(k) ==> 0 <= k < self.issued
        &&& forall|k: int| #[trigger] self.indices.contains_key(k) ==> 0 <= k < self.issued
        &&& forall|k: int|
            #![trigger self.positions.contains_key(k)]
            #![trigger self.indices.contains_key(k)]
            0 <= k < self.issued ==> self.positions.contains_key(k) != self.indices.contains_key(k)
    }

    /// The state after uploading the positions `points`: they are kept under
    /// the next handle number.
    pub open spec fn with_positions(self, points: Seq<V>) -> Self {
        RasterizerModel {
            positions: self.positions.insert(self.issued, points),
            issued: self.issued + 1,
            ..self
        }
    }

    /// The state after uploading the faces `faces`: they are kept under the
    /// next handle number.
    pub open spec fn with_indices(self, faces: Seq<[usize; 3]>) -> Self {
        RasterizerModel {
            indices: self.indices.insert(self.issued, faces),
            issued: self.issued + 1,
            ..self
        }
    }

    /// The state after painting the pixels `pts` white.
    pub open spec fn with_painted(self, pts: Seq<(int, int)>) -> Self {
        RasterizerModel {
            frame: painted(self.frame, self.width, self.height, pts, Rgb(255, 255, 255)),
            ..self
        }
    }

    /// The state after clearing both buffers: the frame black, the depth
    /// zero.
    pub open spec fn cleared(self) -> Self {
        RasterizerModel {
            frame: Seq::new(self.frame.len(), |i: int| Rgb(0, 0, 0)),
            depth: Seq::new(self.depth.len(), |i: int| 0i32),
            ..self
        }
    }
}

/// A buffer of positions is found again under its handle exactly as it was
/// uploaded, and so is one of faces.
pub proof fn lemma_upload_round_trip<V>(m: RasterizerModel<V>, points: Seq<V>, faces: Seq<[usize; 3]>)
    ensures
        m.with_positions(points).positions.contains_key(m.issued),
        m.with_positions(points).positions[m.issued] == points,
        m.with_indices(faces).indices.contains_key(m.issued),
        m.with_indices(faces).indices[m.issued] == faces,
{
}

/// No upload touches a buffer that was uploaded before it: a handle keeps
/// naming the same buffer, since no handle number is issued twice.
pub proof fn lemma_upload_keeps_earlier<V>(
    m: RasterizerModel<V>,
    points: Seq<V>,
    faces: Seq<[usize; 3]>,
    k: int,
)
    requires
        m.wf(),
    ensures
        m.positions.contains_key(k) ==> {
            &&& m.with_positions(points).positions.contains_key(k)
            &&& m.with_positions(points).positions[k] == m.positions[k]
            &&& m.with_indices(faces).positions.contains_key(k)
            &&& m.with_indices(faces).positions[k] == m.positions[k]
        },
        m.indices.contains_key(k) ==> {
            &&& m.with_positions(points).indices.contains_key(k)
            &&& m.with_positions(points).indices[k] == m.indices[k]
            &&& m.with_indices(faces).indices.contains_key(k)
            &&& m.with_indices(faces).indices[k] == m.indices[k]
        },
{
}

/// Uploads keep the invariant as long as handle numbers are left, and
/// painting and clearing keep it always.
pub proof fn lemma_steps_keep_invariant<V>(
    m: RasterizerModel<V>,
    points: Seq<V>,
    faces: Seq<[usize; 3]>,
    pts: Seq<(int, int)>,
)
    requires
        m.wf(),
    ensures
        m.issued < usize::MAX ==> m.with_positions(points).wf() && m.with_indices(faces).wf(),
        m.with_painted(pts).wf(),
        m.cleared().wf(),
{
}

/// Whether every index of every face names a vertex of `positions`.
pub open spec fn faces_in_range<V>(positions: Seq<V>, faces: Seq<[usize; 3]>) -> bool {
    forall|i: int, k: int|
        0 <= i < faces.len() && 0 <= k < 3 ==> (#[trigger] faces[i][k]) < positions.len()
}

/// Whether the vertex stage `project` accepts every vertex that the faces
/// name.
pub open spec fn stage_accepts<V, F: Fn(&V) -> Point3>(
    positions: Seq<V>,
    faces: Seq<[usize; 3]>,
    project: F,
) -> bool {
    forall|i: int, k: int|
        0 <= i < faces.len() && 0 <= k < 3 ==> call_requires(
            project,
            (&positions[(#[trigger] faces[i][k]) as int],),
        )
}

/// Whether `t` is a triangle that the vertex stage `project` can make of
/// `face`: each vertex is a point that the stage can return for the vertex
/// named, and the colours are red, green and blue.
pub open spec fn face_projected<V, F: Fn(&V) -> Point3>(
    positions: Seq<V>,
    face: [usize; 3],
    project: F,
    t: Triangle,
) -> bool {
    &&& call_ensures(project, (&positions[face[0] as int],), t.v[0])
    &&& call_ensures(project, (&positions[face[1] as int],), t.v[1])
    &&& call_ensures(project, (&positions[face[2] as int],), t.v[2])
    &&& t.color[0] == Rgb(255, 0, 0)
    &&& t.color[1] == Rgb(0, 255, 0)
    &&& t.color[2] == Rgb(0, 0, 255)
}

/// Whether `tris` are triangles that the vertex stage `project` can make of
/// `faces`, face by face.
pub open spec fn projected<V, F: Fn(&V) -> Point3>(
    positions: Seq<V>,
    faces: Seq<[usize; 3]>,
    project: F,
    tris: Seq<Triangle>,
) -> bool {
    &&& tris.len() == faces.len()
    &&& forall|i: int|
        0 <= i < faces.len() ==> face_projected(positions, faces[i], project, #[trigger] tris[i])
}

/// A vector of `n` copies of `value`.
fn filled<T: Copy>(n: usize, value: T) -> (v: Vec<T>)
    ensures
        v@ == Seq::new(n as nat, |i: int| value),
{
    let mut v: Vec<T> = Vec::new();
    let mut i: usize = 0;
    while i < n
        invariant
            i <= n,
            v@ == Seq::new(i as nat, |j: int| value),
        decreases n - i,
    {
        v.push(value);
        i += 1;
        assert(v@ =~= Seq::new(i as nat, |j: int| value));
    }
    v
}

/// A copy of a vector.
fn copied<T: Copy>(src: &Vec<T>) -> (v: Vec<T>)
    ensures
        v@ == src@,
{
    let mut v: Vec<T> = Vec::new();
    let mut i: usize = 0;
    while i < src.len()
        invariant
            i <= src.len(),
            v@ == src@.take(i as int),
        decreases src.len() - i,
    {
        v.push(src[i]);
        i += 1;
        assert(v@ =~= src@.take(i as int));
    }
    assert(src@.take(i as int) =~= src@);
    v
}

impl<V> View for Rasterizer<V> {
    type V = RasterizerModel<V>;

    closed spec fn view(&self) -> RasterizerModel<V> {
        RasterizerModel {
            width: self.width as int,
            height: self.height as int,
            positions: Map::new(
                |k: int| 0 <= k <= usize::MAX && self.pos_buf@.contains_key(k as usize),
                |k: int| self.pos_buf@[k as usize]@,
            ),
            indices: Map::new(
                |k: int| 0 <= k <= usize::MAX && self.ind_buf@.contains_key(k as usize),
                |k: int| self.ind_buf@[k as usize]@,
            ),
            issued: self.next_id as int,
            frame: self.frame_buf@,
            depth: self.depth_buf@,
        }
    }
}

impl<V> Rasterizer<V> {
    /// The invariant of the rasterizer: that of its state.
    pub open spec fn wf(&self) -> bool {
        self@.wf()
    }

    /// A rasterizer for a canvas of `width` by `height` pixels: the frame
    /// buffer black, the depth buffer zero, and no buffer uploaded.
    pub fn new(width: u32, height: u32) -> (r: Rasterizer<V>)
        requires
            width * height <= usize::MAX,
        ensures
            r.wf(),
            r@ == (RasterizerModel::<V> {
                width: width as int,
                height: height as int,
                positions: Map::empty(),
                indices: Map::empty(),
                issued: 0,
                frame: Seq::new((width * height) as nat, |i: int| Rgb(0, 0, 0)),
                depth: Seq::new((width * height) as nat, |i: int| 0i32),
            }),
    {
        assert(width * height <= 0xffff_ffff * 0xffff_ffff) by (nonlinear_arith)
            requires
                width <= 0xffff_ffff,
                height <= 0xffff_ffff,
        ;
        let cells: usize = (width as u64 * height as u64) as usize;
        let r = Rasterizer {
            width,
            height,
            ind_buf: HashMap::new(),
            pos_buf: HashMap::new(),
            depth_buf: filled(cells, 0i32),
            next_id: 0,
            frame_buf: filled(cells, Rgb(0, 0, 0)),
        };
        assert(r@.positions =~= Map::empty());
        assert(r@.indices =~= Map::empty());
        r
    }

    /// Issues the next handle number.
    fn get_next_id(&mut self) -> (res: usize)
        requires
            old(self).next_id < usize::MAX,
        ensures
            res == old(self).next_id,
            final(self).next_id == old(self).next_id + 1,
            final(self).width == old(self).width,
            final(self).height == old(self).height,
            final(self).ind_buf == old(self).ind_buf,
            final(self).pos_buf == old(self).pos_buf,
            final(self).depth_buf == old(self).depth_buf,
            final(self).frame_buf == old(self).frame_buf,
    {
        let res = self.next_id;
        self.next_id += 1;
        res
    }

    /// Uploads a copy of `positions` and returns the handle under which it
    /// is kept from now on. Handles are numbered in the order of issue, from
    /// zero, across position and index buffers.
    pub fn load_position(&mut self, positions: &Vec<V>) -> (id: PosBufId) where V: Copy
        requires
            old(self).wf(),
            old(self)@.issued < usize::MAX,
        ensures
            final(self).wf(),
            id.id() == old(self)@.issued,
            final(self)@ == old(self)@.with_positions(positions@),
    {
        let id = self.get_next_id();
        self.pos_buf.insert(id, copied(positions));
        proof {
            let before = old(self)@;
            let after = self@;
            assert(after.positions =~= before.positions.insert(id as int, positions@));
            assert(after.indices =~= before.indices);
            assert(!before.indices.contains_key(id as int));
            assert(!before.positions.contains_key(id as int));
        }
        PosBufId(id)
    }

    /// Uploads a copy of `indices`, one triple of vertex numbers for each
    /// face, and returns the handle under which it is kept from now on.
    pub fn load_indices(&mut self, indices: &Vec<[usize; 3]>) -> (id: IndBufId)
        requires
            old(self).wf(),
            old(self)@.issued < usize::MAX,
        ensures
            final(self).wf(),
            id.id() == old(self)@.issued,
            final(self)@ == old(self)@.with_indices(indices@),
    {
        let id = self.get_next_id();
        self.ind_buf.insert(id, copied(indices));
        proof {
            let before = old(self)@;
            let after = self@;
            assert(after.indices =~= before.indices.insert(id as int, indices@));
            assert(after.positions =~= before.positions);
            assert(!before.positions.contains_key(id as int));
            assert(!before.indices.contains_key(id as int));
        }
        IndBufId(id)
    }

    /// The width of the canvas, in pixels.
    pub fn width(&self) -> (w: u32)
        ensures
            w == self@.width,
    {
        self.width
    }

    /// The height of the canvas, in pixels.
    pub fn height(&self) -> (h: u32)
        ensures
            h == self@.height,
    {
        self.height
    }

    /// The frame buffer: one colour for each pixel, top row first. It is
    /// what the field `frame_buf` holds.
    pub fn frame(&self) -> (buf: &Vec<Rgb>)
        ensures
            buf@ == self@.frame,
    {
        &self.frame_buf
    }

    /// The depth buffer: one cell for each pixel, laid out as the frame
    /// buffer is.
    pub fn depth_buf(&self) -> (buf: &Vec<i32>)
        ensures
            buf@ == self@.depth,
    {
        &self.depth_buf
    }

    /// The number of handles issued so far, which is the number of the next
    /// one.
    pub fn issued(&self) -> (n: usize)
        ensures
            n == self@.issued,
    {
        self.next_id
    }

    /// Whether `id` names a position buffer of this rasterizer.
    pub fn has_positions(&self, id: PosBufId) -> (known: bool)
        ensures
            known == self@.positions.contains_key(id.id()),
    {
        self.pos_buf.contains_key(&id.0)
    }

    /// Whether `id` names an index buffer of this rasterizer.
    pub fn has_indices(&self, id: IndBufId) -> (known: bool)
        ensures
            known == self@.indices.contains_key(id.id()),
    {
        self.ind_buf.contains_key(&id.0)
    }

    /// Whether the two handles name buffers of this rasterizer that can be
    /// drawn together: every index of every face names a vertex.
    pub fn can_draw(&self, pos_id: PosBufId, ind_id: IndBufId) -> (ok: bool)
        ensures
            ok == {
                &&& self@.positions.contains_key(pos_id.id())
                &&& self@.indices.contains_key(ind_id.id())
                &&& faces_in_range(self@.positions[pos_id.id()], self@.indices[ind_id.id()])
            },
    {
        if !self.has_positions(pos_id) || !self.has_indices(ind_id) {
            return false;
        }
        let count = self.positions(pos_id).len();
        let faces = self.indices(ind_id);
        let ghost points = self@.positions[pos_id.id()];
        let mut n: usize = 0;
        while n < faces.len()
            invariant
                n <= faces.len(),
                self@.positions.contains_key(pos_id.id()),
                self@.indices.contains_key(ind_id.id()),
                points == self@.positions[pos_id.id()],
                count == points.len(),
                faces@ == self@.indices[ind_id.id()],
                forall|i: int, k: int|
                    0 <= i < n && 0 <= k < 3 ==> (#[trigger] faces@[i][k]) < count,
            decreases faces.len() - n,
        {
            let face = &faces[n];
            if face[0] >= count || face[1] >= count || face[2] >= count {
                proof {
                    let k: int = if face[0] >= count {
                        0
                    } else if face[1] >= count {
                        1
                    } else {
                        2
                    };
                    assert(faces@[n as int][k] >= points.len());
                }
                return false;
            }
            n += 1;
        }
        true
    }

    /// The position buffer that was uploaded under `id`.
    pub fn positions(&self, id: PosBufId) -> (buf: &Vec<V>)
        requires
            self@.positions.contains_key(id.id()),
        ensures
            buf@ == self@.positions[id.id()],
    {
        match self.pos_buf.get(&id.0) {
            Some(buf) => buf,
            None => vstd::pervasive::unreached(),
        }
    }

    /// The index buffer that was uploaded under `id`.
    pub fn indices(&self, id: IndBufId) -> (buf: &Vec<[usize; 3]>)
        requires
            self@.indices.contains_key(id.id()),
        ensures
            buf@ == self@.indices[id.id()],
    {
        match self.ind_buf.get(&id.0) {
            Some(buf) => buf,
            None => vstd::pervasive::unreached(),
        }
    }

    /// Resets the frame buffer to black and the depth buffer to zero.
    /// Nothing else clears them: `draw` writes over what is there.
    pub fn clear(&mut self)
        requires
            old(self).wf(),
        ensures
            final(self).wf(),
            final(self)@ == old(self)@.cleared(),
    {
        let cells = self.frame_buf.len();
        self.frame_buf = filled(cells, Rgb(0, 0, 0));
        self.depth_buf = filled(cells, 0i32);
        proof {
            assert(self.frame_buf@.len() == cells);
            assert(self.depth_buf@.len() == cells);
            assert(self@.positions == old(self)@.positions);
            assert(self@.indices == old(self)@.indices);
        }
    }

    /// Draws the faces of the index buffer `ind_id` over the vertices of the
    /// position buffer `pos_id`, as outlines, on what the frame buffer
    /// holds.
    ///
    /// For each face in turn, the vertex stage `project` is asked for the
    /// screen point of each of its three vertices, and the three edges
    /// between them are drawn. Every kind of primitive is drawn this way.
    pub fn draw<F: Fn(&V) -> Point3>(
        &mut self,
        pos_id: PosBufId,
        ind_id: IndBufId,
        _type: Primitive,
        project: F,
    )
        requires
            old(self).wf(),
            old(self)@.positions.contains_key(pos_id.id()),
            old(self)@.indices.contains_key(ind_id.id()),
            faces_in_range(old(self)@.positions[pos_id.id()], old(self)@.indices[ind_id.id()]),
            stage_accepts(
                old(self)@.positions[pos_id.id()],
                old(self)@.indices[ind_id.id()],
                project,
            ),
        ensures
            final(self).wf(),
            exists|tris: Seq<Triangle>|
                {
                    &&& #[trigger] projected(
                        old(self)@.positions[pos_id.id()],
                        old(self)@.indices[ind_id.id()],
                        project,
                        tris,
                    )
                    &&& final(self)@ == old(self)@.with_painted(wireframes(tris))
                },
    {
        let ghost start = self@;
        let ghost positions = start.positions[pos_id.id()];
        let ghost faces = start.indices[ind_id.id()];
        let ghost white = Rgb(255, 255, 255);
        let ghost mut tris: Seq<Triangle> = Seq::empty();
        let buf = match self.pos_buf.get(&pos_id.0) {
            Some(buf) => buf,
            None => vstd::pervasive::unreached(),
        };
        let ind = match self.ind_buf.get(&ind_id.0) {
            Some(ind) => ind,
            None => vstd::pervasive::unreached(),
        };
        let width = self.width;
        let height = self.height;
        let frame_buf = &mut self.frame_buf;
        proof {
            lemma_painted_nothing(start.frame, start.width, start.height, white);
        }
        let mut n: usize = 0;
        while n < ind.len()
            invariant
                n <= ind.len(),
                buf@ == positions,
                ind@ == faces,
                width == start.width,
                height == start.height,
                white == Rgb(255, 255, 255),
                start.frame.len() == start.width * start.height,
                faces_in_range(positions, faces),
                stage_accepts(positions, faces, project),
                projected(positions, faces.take(n as int), project, tris),
                frame_buf@ == painted(start.frame, start.width, start.height, wireframes(tris), white),
            decreases ind.len() - n,
        {
            let t = Self::get_triangle(buf, &ind[n], &project);
            let ghost before = frame_buf@;
            Self::draw_wireframe(width, height, &t, frame_buf);
            proof {
                let grown = tris.push(t);
                assert(grown.drop_last() =~= tris);
                lemma_painted_concat(
                    start.frame,
                    start.width,
                    start.height,
                    wireframes(tris),
                    wireframe(t),
                    white,
                );
                assert forall|i: int| 0 <= i < n + 1 implies face_projected(
                    positions,
                    faces.take(n + 1)[i],
                    project,
                    #[trigger] grown[i],
                ) by {
                    if i < n {
                        assert(face_projected(positions, faces.take(n as int)[i], project, tris[i]));
                    }
                }
                tris = grown;
            }
            n += 1;
        }
        proof {
            assert(faces.take(n as int) =~= faces);
        }
    }

    /// The triangle of one face: its three vertices, sent through the vertex
    /// stage, with the colours red, green and blue.
    fn get_triangle<F: Fn(&V) -> Point3>(buf: &Vec<V>, i: &[usize; 3], project: &F) -> (t: Triangle)
        requires
            i[0] < buf.len(),
            i[1] < buf.len(),
            i[2] < buf.len(),
            call_requires(*project, (&buf[i[0] as int],)),
            call_requires(*project, (&buf[i[1] as int],)),
            call_requires(*project, (&buf[i[2] as int],)),
        ensures
            face_projected(buf@, *i, *project, t),
    {
        let mut t = Triangle::new();
        let v0 = project(&buf[i[0]]);
        let v1 = project(&buf[i[1]]);
        let v2 = project(&buf[i[2]]);
        t.set_vertex(0, v0);
        t.set_vertex(1, v1);
        t.set_vertex(2, v2);
        t.set_color(0, Rgb(255, 0, 0));
        t.set_color(1, Rgb(0, 255, 0));
        t.set_color(2, Rgb(0, 0, 255));
        t
    }
}

} // verus!
