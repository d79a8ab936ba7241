//! The guest's cursor, drawn as part of the scene: a toolkit draws pointer cursors without regard
//! to the scale of the output, which makes them blurry on scaled displays.

use vstd::prelude::*;

use crate::viewer::input::MouseMode;

verus! {

/// What is known of the cursor, but for its texture and for where the pointer is.
#[derive(Copy, Clone, Debug, PartialEq, Eq)]
pub struct SceneState {
    /// Whether there is a texture.
    pub textured: bool,
    pub hotspot: (i32, i32),
    /// Whether the pointer is over the picture.
    pub pointed: bool,
    pub cursor_visible: bool,
}

/// What to draw the cursor by: its hotspot and the size of the frame that it is drawn over.
#[derive(Copy, Clone, Debug, PartialEq, Eq)]
pub struct CursorDraw {
    pub hotspot: (i32, i32),
    pub frame_size: (u32, u32),
}

impl Default for SceneState {
    fn default() -> (r: SceneState)
        ensures
            r == (SceneState {
                textured: false,
                hotspot: (0, 0),
                pointed: false,
                cursor_visible: true,
            }),
    {
        SceneState { textured: false, hotspot: (0, 0), pointed: false, cursor_visible: true }
    }
}

impl SceneState {
    /// The cursor has a new shape, whose hotspot is given, or none at all. Without a shape the
    /// hotspot stays what it was.
    pub fn set_shape(&mut self, hotspot: Option<(i32, i32)>)
        ensures
            *final(self) == (SceneState {
                textured: hotspot is Some,
                hotspot: match hotspot {
                    Some(hotspot) => hotspot,
                    None => old(self).hotspot,
                },
                ..*old(self)
            }),
    {
        match hotspot {
            Some(hotspot) => {
                self.textured = true;
                self.hotspot = hotspot;
            },
            None => {
                self.textured = false;
            },
        }
    }

    /// Shows or hides the cursor.
    pub fn set_cursor_visible(&mut self, visible: bool)
        ensures
            *final(self) == (SceneState { cursor_visible: visible, ..*old(self) }),
    {
        self.cursor_visible = visible;
    }

    /// The pointer came over the picture, or left it.
    pub fn set_pointer(&mut self, pointed: bool)
        ensures
            *final(self) == (SceneState { pointed, ..*old(self) }),
    {
        self.pointed = pointed;
    }

    /// Whether the cursor is drawn, and by what. It is not in relative mode, where the pointer
    /// says nothing about where the guest keeps its cursor. `placed` tells whether the picture
    /// has a place in the scene.
    pub fn draw(
        &self,
        mouse_mode: Option<MouseMode>,
        frame_size: Option<(u32, u32)>,
        placed: bool,
    ) -> (r: Option<CursorDraw>)
        ensures
            match r {
                Some(draw) => {
                    &&& self.cursor_visible
                    &&& self.textured
                    &&& self.pointed
                    &&& mouse_mode == Some(MouseMode::Absolute)
                    &&& placed
                    &&& frame_size == Some(draw.frame_size)
                    &&& draw.hotspot == self.hotspot
                },
                None => {
                    ||| !self.cursor_visible
                    ||| !self.textured
                    ||| !self.pointed
                    ||| mouse_mode != Some(MouseMode::Absolute)
                    ||| frame_size is None
                    ||| !placed
                },
            },
    {
        if !self.cursor_visible || !self.textured || !self.pointed || !placed {
            return None;
        }
        match mouse_mode {
            Some(MouseMode::Absolute) => {},
            _ => {
                return None;
            },
        }
        match frame_size {
            Some(frame_size) => Some(CursorDraw { hotspot: self.hotspot, frame_size }),
            None => None,
        }
    }
}

} // verus!
