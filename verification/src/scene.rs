use vstd::prelude::*;
use vstd::arithmetic::div_mod::lemma_fundamental_div_mod_converse;
use crate::camera::Camera;
use crate::convert::clip;
use crate::world::World;

verus! {

/// A scene and the eye that looks at it.
#[derive(Debug)]
pub struct Scene {
    pub camera: Camera,
    pub world: World,
}

impl Scene {
    /// The number of pixels in a row of the picture.
    pub open spec fn spec_width(self) -> int {
        clip(self.camera.viewport_width.truncated(), 0, u32::MAX as int)
    }

    /// The number of pixels in a column of the picture.
    pub open spec fn spec_height(self) -> int {
        clip(self.camera.viewport_height.truncated(), 0, u32::MAX as int)
    }

    /// The pixel in column `x` of row `y` stands at place `y * width + x` of a frame:
    /// from that place `pos` gives the column and the row back.
    pub proof fn lemma_place_of_pixel(width: int, x: int, y: int)
        requires
            0 <= x < width,
            0 <= y,
        ensures
            (y * width + x) % width == x,
            (y * width + x) / width == y,
    {
        lemma_fundamental_div_mod_converse(y * width + x, width, y, x);
    }

    /// The world as the camera sees it.
    pub fn new(camera: Camera, world: World) -> (scene: Scene)
        ensures
            scene.camera == camera,
            scene.world == world,
    {
        Scene { camera, world }
    }

    /// The number of pixels in a row of the picture.
    pub fn width(&self) -> (width: u32)
        ensures
            width == self.spec_width(),
    {
        self.camera.viewport_width.to_u32()
    }

    /// The number of pixels in a column of the picture.
    pub fn height(&self) -> (height: u32)
        ensures
            height == self.spec_height(),
    {
        self.camera.viewport_height.to_u32()
    }

    /// The column and the row of the pixel that stands at place `index` of a frame, the
    /// rows following one another from the top. The index is read as a 32-bit number.
    pub fn pos(&self, index: usize) -> (at: (u32, u32))
        requires
            self.spec_width() > 0,
        ensures
            at.0 == ((index as int) % 0x1_0000_0000) % self.spec_width(),
            at.1 == ((index as int) % 0x1_0000_0000) / self.spec_width(),
    {
        let width = self.width();
        let short: u32 = ((index as u64) % 0x1_0000_0000) as u32;
        let x = short % width;
        let y = short / width;
        (x, y)
    }
}

/// Writes the pixels of a picture into a frame of four bytes to the pixel: pixel `i`
/// goes to the bytes from `4 * i` on. Bytes behind the last whole pixel of the frame
/// stay as they are.
pub fn draw(frame: &mut [u8], pixels: &Vec<[u8; 4]>)
    requires
        pixels.len() >= old(frame)@.len() / 4,
    ensures
        final(frame)@.len() == old(frame)@.len(),
        forall|i: int, k: int|
            0 <= i < old(frame)@.len() / 4 && 0 <= k < 4 ==> final(frame)@[4 * i + k] == pixels@[i][k],
        forall|j: int|
            (old(frame)@.len() / 4) * 4 <= j < old(frame)@.len() ==> final(frame)@[j] == old(frame)@[j],
{
    let count = frame.len() / 4;
    let mut index: usize = 0;
    while index < count
        invariant
            count == old(frame)@.len() / 4,
            frame@.len() == old(frame)@.len(),
            index <= count,
            pixels.len() >= count,
            frame@.len() <= usize::MAX,
            forall|i: int, k: int|
                0 <= i < index && 0 <= k < 4 ==> frame@[4 * i + k] == pixels@[i][k],
            forall|j: int| 4 * index <= j < frame@.len() ==> frame@[j] == old(frame)@[j],
        decreases count - index,
    {
        let pixel = pixels[index];
        frame[4 * index] = pixel[0];
        frame[4 * index + 1] = pixel[1];
        frame[4 * index + 2] = pixel[2];
        frame[4 * index + 3] = pixel[3];
        index += 1;
    }
}

} // verus!
