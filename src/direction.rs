use vstd::prelude::*;

verus! {

/// The side of a voxel that a face looks at. `Other` marks faces that are drawn
/// whatever their neighbours are.
#[derive(Clone, Copy, Debug, PartialEq, Eq, Structural)]
pub enum VoxelFaceDirection {
    Front,
    Back,
    Left,
    Right,
    Top,
    Bottom,
    Other,
}

/// The opposite side.
pub open spec fn reverse_spec(d: VoxelFaceDirection) -> VoxelFaceDirection {
    match d {
        VoxelFaceDirection::Front => VoxelFaceDirection::Back,
        VoxelFaceDirection::Back => VoxelFaceDirection::Front,
        VoxelFaceDirection::Left => VoxelFaceDirection::Right,
        VoxelFaceDirection::Right => VoxelFaceDirection::Left,
        VoxelFaceDirection::Top => VoxelFaceDirection::Bottom,
        VoxelFaceDirection::Bottom => VoxelFaceDirection::Top,
        VoxelFaceDirection::Other => VoxelFaceDirection::Other,
    }
}

/// The unit step along the axes that crosses the face: Front/Back along x,
/// Right/Left along y, Top/Bottom along z.
pub open spec fn step_spec(d: VoxelFaceDirection) -> (int, int, int) {
    match d {
        VoxelFaceDirection::Front => (1, 0, 0),
        VoxelFaceDirection::Back => (-1, 0, 0),
        VoxelFaceDirection::Left => (0, -1, 0),
        VoxelFaceDirection::Right => (0, 1, 0),
        VoxelFaceDirection::Top => (0, 0, 1),
        VoxelFaceDirection::Bottom => (0, 0, -1),
        VoxelFaceDirection::Other => (0, 0, 0),
    }
}

impl VoxelFaceDirection {
    pub fn reverse(&self) -> (r: Self)
        ensures
            r == reverse_spec(*self),
    {
        match self {
            VoxelFaceDirection::Front => VoxelFaceDirection::Back,
            VoxelFaceDirection::Back => VoxelFaceDirection::Front,
            VoxelFaceDirection::Left => VoxelFaceDirection::Right,
            VoxelFaceDirection::Right => VoxelFaceDirection::Left,
            VoxelFaceDirection::Top => VoxelFaceDirection::Bottom,
            VoxelFaceDirection::Bottom => VoxelFaceDirection::Top,
            VoxelFaceDirection::Other => VoxelFaceDirection::Other,
        }
    }

    /// The six cardinal directions, in the order Front, Back, Left, Right, Top, Bottom.
    pub fn to_vec() -> (r: Vec<VoxelFaceDirection>)
        ensures
            r@ == seq![
                VoxelFaceDirection::Front,
                VoxelFaceDirection::Back,
                VoxelFaceDirection::Left,
                VoxelFaceDirection::Right,
                VoxelFaceDirection::Top,
                VoxelFaceDirection::Bottom,
            ],
    {
        let r = vec![
            VoxelFaceDirection::Front,
            VoxelFaceDirection::Back,
            VoxelFaceDirection::Left,
            VoxelFaceDirection::Right,
            VoxelFaceDirection::Top,
            VoxelFaceDirection::Bottom,
        ];
        assert(r@ =~= seq![
            VoxelFaceDirection::Front,
            VoxelFaceDirection::Back,
            VoxelFaceDirection::Left,
            VoxelFaceDirection::Right,
            VoxelFaceDirection::Top,
            VoxelFaceDirection::Bottom,
        ]);
        r
    }
}

/// One value for each of the six cardinal directions.
#[derive(Clone, Copy, Debug)]
pub struct DirectionMap<T> {
    pub front: T,
    pub back: T,
    pub left: T,
    pub right: T,
    pub top: T,
    pub bottom: T,
}

impl<T> DirectionMap<T> {
    /// The value kept for `d`; `Other` has none.
    pub open spec fn get_spec(self, d: VoxelFaceDirection) -> Option<T> {
        match d {
            VoxelFaceDirection::Front => Some(self.front),
            VoxelFaceDirection::Back => Some(self.back),
            VoxelFaceDirection::Left => Some(self.left),
            VoxelFaceDirection::Right => Some(self.right),
            VoxelFaceDirection::Top => Some(self.top),
            VoxelFaceDirection::Bottom => Some(self.bottom),
            VoxelFaceDirection::Other => None,
        }
    }
}

impl<T: Copy> DirectionMap<T> {
    /// Builds a map from six values given in the order Front, Back, Left, Right,
    /// Top, Bottom.
    pub fn from_slice(data: &[T]) -> (r: Self)
        requires
            data@.len() >= 6,
        ensures
            r.front == data@[0],
            r.back == data@[1],
            r.left == data@[2],
            r.right == data@[3],
            r.top == data@[4],
            r.bottom == data@[5],
    {
        Self {
            front: data[0],
            back: data[1],
            left: data[2],
            right: data[3],
            top: data[4],
            bottom: data[5],
        }
    }

    pub fn get_front(&self) -> (r: T)
        ensures
            r == self.front,
    {
        self.front
    }

    pub fn get_back(&self) -> (r: T)
        ensures
            r == self.back,
    {
        self.back
    }

    pub fn get_left(&self) -> (r: T)
        ensures
            r == self.left,
    {
        self.left
    }

    pub fn get_right(&self) -> (r: T)
        ensures
            r == self.right,
    {
        self.right
    }

    pub fn get_top(&self) -> (r: T)
        ensures
            r == self.top,
    {
        self.top
    }

    pub fn get_bottom(&self) -> (r: T)
        ensures
            r == self.bottom,
    {
        self.bottom
    }

    pub fn get_front_ref(&self) -> (r: &T)
        ensures
            *r == self.front,
    {
        &self.front
    }

    pub fn get_back_ref(&self) -> (r: &T)
        ensures
            *r == self.back,
    {
        &self.back
    }

    pub fn get_left_ref(&self) -> (r: &T)
        ensures
            *r == self.left,
    {
        &self.left
    }

    pub fn get_right_ref(&self) -> (r: &T)
        ensures
            *r == self.right,
    {
        &self.right
    }

    pub fn get_top_ref(&self) -> (r: &T)
        ensures
            *r == self.top,
    {
        &self.top
    }

    pub fn get_bottom_ref(&self) -> (r: &T)
        ensures
            *r == self.bottom,
    {
        &self.bottom
    }

    pub fn get_by_voxel_face_direction(&self, face_direction: VoxelFaceDirection) -> (r: Option<T>)
        ensures
            r == self.get_spec(face_direction),
    {
        match face_direction {
            VoxelFaceDirection::Front => Some(self.front),
            VoxelFaceDirection::Back => Some(self.back),
            VoxelFaceDirection::Left => Some(self.left),
            VoxelFaceDirection::Right => Some(self.right),
            VoxelFaceDirection::Top => Some(self.top),
            VoxelFaceDirection::Bottom => Some(self.bottom),
            VoxelFaceDirection::Other => None,
        }
    }

    pub fn get_ref_by_voxel_face_direction(&self, face_direction: &VoxelFaceDirection) -> (r: Option<
        &T,
    >)
        ensures
            match r {
                Some(v) => self.get_spec(*face_direction) == Some(*v),
                None => self.get_spec(*face_direction) is None,
            },
    {
        match face_direction {
            VoxelFaceDirection::Front => Some(&self.front),
            VoxelFaceDirection::Back => Some(&self.back),
            VoxelFaceDirection::Left => Some(&self.left),
            VoxelFaceDirection::Right => Some(&self.right),
            VoxelFaceDirection::Top => Some(&self.top),
            VoxelFaceDirection::Bottom => Some(&self.bottom),
            VoxelFaceDirection::Other => None,
        }
    }
}

} // verus!
