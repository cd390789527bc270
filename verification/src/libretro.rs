//! What the worker takes from a libretro core: video and audio frames, pixel formats,
//! the joypad bit layout of input packets, and core option files.
use vstd::prelude::*;

use crate::text::{chars_of, is_ws, string_from_range, trim_seq, trim_str};

verus! {

/// Players a core is driven for.
pub const MAX_PLAYERS: usize = 8;

/// Analog axes per player: left and right stick, x and y.
pub const MAX_AXES: usize = 4;

pub const RETRO_PIXEL_FORMAT_0RGB1555: u32 = 0;
pub const RETRO_PIXEL_FORMAT_XRGB8888: u32 = 1;
pub const RETRO_PIXEL_FORMAT_RGB565: u32 = 2;

pub const RETRO_DEVICE_JOYPAD: u32 = 1;
pub const RETRO_DEVICE_ANALOG: u32 = 5;
pub const RETRO_DEVICE_INDEX_ANALOG_RIGHT: u32 = 1;
pub const RETRO_DEVICE_ID_ANALOG_Y: u32 = 1;

/// The libretro joypad button ids (`RETRO_DEVICE_ID_JOYPAD_*` of `libretro.h`).
pub const RETRO_DEVICE_ID_JOYPAD_B: u32 = 0;
pub const RETRO_DEVICE_ID_JOYPAD_Y: u32 = 1;
pub const RETRO_DEVICE_ID_JOYPAD_SELECT: u32 = 2;
pub const RETRO_DEVICE_ID_JOYPAD_START: u32 = 3;
pub const RETRO_DEVICE_ID_JOYPAD_UP: u32 = 4;
pub const RETRO_DEVICE_ID_JOYPAD_DOWN: u32 = 5;
pub const RETRO_DEVICE_ID_JOYPAD_LEFT: u32 = 6;
pub const RETRO_DEVICE_ID_JOYPAD_RIGHT: u32 = 7;
pub const RETRO_DEVICE_ID_JOYPAD_A: u32 = 8;
pub const RETRO_DEVICE_ID_JOYPAD_X: u32 = 9;
pub const RETRO_DEVICE_ID_JOYPAD_L: u32 = 10;
pub const RETRO_DEVICE_ID_JOYPAD_R: u32 = 11;
pub const RETRO_DEVICE_ID_JOYPAD_L2: u32 = 12;
pub const RETRO_DEVICE_ID_JOYPAD_R2: u32 = 13;
pub const RETRO_DEVICE_ID_JOYPAD_L3: u32 = 14;
pub const RETRO_DEVICE_ID_JOYPAD_R3: u32 = 15;

/// How the pixels of a video frame are laid out.
#[derive(Debug, Clone, Copy, PartialEq, Eq, Structural)]
pub enum RetroPixelFormat {
    Rgb1555,
    Xrgb8888,
    Rgb565,
    Unknown(u32),
}

/// The pixel format a core announced by its libretro number.
pub open spec fn pixel_format_of(raw: u32) -> RetroPixelFormat {
    if raw == RETRO_PIXEL_FORMAT_0RGB1555 {
        RetroPixelFormat::Rgb1555
    } else if raw == RETRO_PIXEL_FORMAT_XRGB8888 {
        RetroPixelFormat::Xrgb8888
    } else if raw == RETRO_PIXEL_FORMAT_RGB565 {
        RetroPixelFormat::Rgb565
    } else {
        RetroPixelFormat::Unknown(raw)
    }
}

/// The pixel format with the given libretro number.
pub fn pixel_format_from_raw(raw: u32) -> (f: RetroPixelFormat)
    ensures
        f == pixel_format_of(raw),
{
    if raw == RETRO_PIXEL_FORMAT_0RGB1555 {
        RetroPixelFormat::Rgb1555
    } else if raw == RETRO_PIXEL_FORMAT_XRGB8888 {
        RetroPixelFormat::Xrgb8888
    } else if raw == RETRO_PIXEL_FORMAT_RGB565 {
        RetroPixelFormat::Rgb565
    } else {
        RetroPixelFormat::Unknown(raw)
    }
}

/// A video frame as a core rendered it: rows of `pitch` bytes.
#[derive(Debug)]
pub struct VideoFrame {
    format: RetroPixelFormat,
    width: u32,
    height: u32,
    pitch: usize,
    data: Vec<u8>,
}

impl VideoFrame {
    pub closed spec fn spec_format(&self) -> RetroPixelFormat {
        self.format
    }

    pub closed spec fn spec_width(&self) -> u32 {
        self.width
    }

    pub closed spec fn spec_height(&self) -> u32 {
        self.height
    }

    pub closed spec fn spec_pitch(&self) -> usize {
        self.pitch
    }

    pub closed spec fn spec_data(&self) -> Seq<u8> {
        self.data@
    }

    /// A frame of the given layout and bytes.
    pub fn new(format: RetroPixelFormat, width: u32, height: u32, pitch: usize, data: Vec<u8>) -> (f: Self)
        ensures
            f.spec_format() == format,
            f.spec_width() == width,
            f.spec_height() == height,
            f.spec_pitch() == pitch,
            f.spec_data() == data@,
    {
        VideoFrame { format, width, height, pitch, data }
    }

    /// The pixel format.
    pub fn format(&self) -> (r: RetroPixelFormat)
        ensures
            r == self.spec_format(),
    {
        self.format
    }

    /// The width in pixels.
    pub fn width(&self) -> (r: u32)
        ensures
            r == self.spec_width(),
    {
        self.width
    }

    /// The height in pixels.
    pub fn height(&self) -> (r: u32)
        ensures
            r == self.spec_height(),
    {
        self.height
    }

    /// The number of bytes from one row to the next.
    pub fn pitch(&self) -> (r: usize)
        ensures
            r == self.spec_pitch(),
    {
        self.pitch
    }

    /// The pixel bytes.
    pub fn data(&self) -> (r: &[u8])
        ensures
            r@ == self.spec_data(),
    {
        self.data.as_slice()
    }

    /// The pixel bytes, taken out of the frame, so that their buffer can be reused.
    pub fn into_data(self) -> (r: Vec<u8>)
        ensures
            r@ == self.spec_data(),
    {
        self.data
    }
}

/// Interleaved stereo samples from a core.
#[derive(Debug)]
pub struct AudioFrame {
    samples: Vec<i16>,
}

impl AudioFrame {
    pub closed spec fn spec_samples(&self) -> Seq<i16> {
        self.samples@
    }

    /// A frame of the given samples.
    pub fn new(samples: Vec<i16>) -> (f: Self)
        ensures
            f.spec_samples() == samples@,
    {
        AudioFrame { samples }
    }

    /// The samples.
    pub fn samples(&self) -> (r: &[i16])
        ensures
            r@ == self.spec_samples(),
    {
        self.samples.as_slice()
    }

    /// The samples, taken out of the frame, so that their buffer can be reused.
    pub fn into_samples(self) -> (r: Vec<i16>)
        ensures
            r@ == self.spec_samples(),
    {
        self.samples
    }
}

/// Spare buffers kept for reuse, within a count and a capacity limit.
pub struct BufferPool<T> {
    buffers: Vec<Vec<T>>,
    max_buffers: usize,
    max_capacity: usize,
}

/// The capacity of a buffer, as the allocator gave it (`Vec::capacity`); what it is depends
/// on the allocator, so nothing is stated of it.
#[verifier::external_body]
fn buffer_capacity<T>(v: &Vec<T>) -> (n: usize) {
    v.capacity()
}

impl<T> BufferPool<T> {
    /// The number of spare buffers.
    pub closed spec fn spare(&self) -> nat {
        self.buffers@.len()
    }

    /// The most spare buffers kept.
    pub closed spec fn spec_max_buffers(&self) -> usize {
        self.max_buffers
    }

    /// The largest capacity of a buffer worth keeping.
    pub closed spec fn spec_max_capacity(&self) -> usize {
        self.max_capacity
    }

    /// The spare buffers after a buffer of the given capacity is handed back: one more,
    /// unless the pool is full or the capacity is beyond the limit.
    pub open spec fn spare_after_put(&self, capacity: usize) -> nat {
        if self.spare() < self.spec_max_buffers() && capacity <= self.spec_max_capacity() {
            self.spare() + 1
        } else {
            self.spare()
        }
    }

    /// Spare buffers are empty, and no more than the limit are kept.
    pub closed spec fn wf(&self) -> bool {
        &&& self.buffers@.len() <= self.max_buffers
        &&& forall|i: int| 0 <= i < self.buffers@.len() ==> #[trigger] self.buffers@[i]@.len() == 0
    }

    /// An empty pool; each limit is at least one.
    pub fn new(max_buffers: usize, max_capacity: usize) -> (p: Self)
        ensures
            p.wf(),
            p.spare() == 0,
            p.spec_max_buffers() == (if max_buffers > 1 { max_buffers } else { 1 }),
            p.spec_max_capacity() == (if max_capacity > 1 { max_capacity } else { 1 }),
    {
        BufferPool {
            buffers: Vec::new(),
            max_buffers: if max_buffers > 1 { max_buffers } else { 1 },
            max_capacity: if max_capacity > 1 { max_capacity } else { 1 },
        }
    }

    /// An empty buffer: a spare one when there is one, else a new one.
    pub fn take(&mut self) -> (b: Vec<T>)
        requires
            old(self).wf(),
        ensures
            final(self).wf(),
            b@.len() == 0,
            final(self).spare() == (if old(self).spare() > 0 { old(self).spare() - 1 } else { 0 }),
            final(self).spec_max_buffers() == old(self).spec_max_buffers(),
            final(self).spec_max_capacity() == old(self).spec_max_capacity(),
    {
        match self.buffers.pop() {
            Some(b) => {
                assert(old(self).buffers@[old(self).buffers@.len() - 1] == b);
                b
            },
            None => Vec::new(),
        }
    }

    /// Keeps a buffer for reuse, emptied, unless the pool is full or the buffer has grown
    /// beyond the capacity limit; whether it has depends on its capacity, which the
    /// allocator chose.
    pub fn put(&mut self, buffer: Vec<T>)
        requires
            old(self).wf(),
        ensures
            final(self).wf(),
            exists|capacity: usize| final(self).spare() == #[trigger] old(self).spare_after_put(capacity),
            final(self).spare() == old(self).spare() || (final(self).spare() == old(self).spare() + 1
                && old(self).spare() < old(self).spec_max_buffers()),
            old(self).spare() >= old(self).spec_max_buffers() ==> final(self).spare() == old(self).spare(),
            final(self).spec_max_buffers() == old(self).spec_max_buffers(),
            final(self).spec_max_capacity() == old(self).spec_max_capacity(),
    {
        let capacity = buffer_capacity(&buffer);
        self.put_with_capacity(buffer, capacity);
    }

    /// Keeps a buffer of the given capacity for reuse, emptied, unless the pool is full or
    /// the capacity is beyond the limit.
    pub fn put_with_capacity(&mut self, buffer: Vec<T>, capacity: usize)
        requires
            old(self).wf(),
        ensures
            final(self).wf(),
            final(self).spare() == old(self).spare_after_put(capacity),
            final(self).spec_max_buffers() == old(self).spec_max_buffers(),
            final(self).spec_max_capacity() == old(self).spec_max_capacity(),
    {
        let mut buffer = buffer;
        buffer.clear();
        if capacity > self.max_capacity {
            return;
        }
        if self.buffers.len() >= self.max_buffers {
            return;
        }
        self.buffers.push(buffer);
    }
}

/// The packet bit of a libretro joypad button: the frontend's bitmap orders buttons
/// A, B, X, Y, L, R, Select, Start, Up, Down, Left, Right, R2, L2, R3, L3.
pub open spec fn button_bit(id: u32) -> Option<u16> {
    if id == 0 {
        Some(1u16)
    } else if id == 1 {
        Some(3u16)
    } else if id == 2 {
        Some(6u16)
    } else if id == 3 {
        Some(7u16)
    } else if id == 4 {
        Some(8u16)
    } else if id == 5 {
        Some(9u16)
    } else if id == 6 {
        Some(10u16)
    } else if id == 7 {
        Some(11u16)
    } else if id == 8 {
        Some(0u16)
    } else if id == 9 {
        Some(2u16)
    } else if id == 10 {
        Some(4u16)
    } else if id == 11 {
        Some(5u16)
    } else if id == 12 {
        Some(13u16)
    } else if id == 13 {
        Some(12u16)
    } else if id == 14 {
        Some(15u16)
    } else if id == 15 {
        Some(14u16)
    } else {
        None
    }
}

/// The packet bit of a libretro joypad button id.
pub fn button_bit_index(id: u32) -> (r: Option<u16>)
    ensures
        r == button_bit(id),
{
    match id {
        0 => Some(1),
        1 => Some(3),
        2 => Some(6),
        3 => Some(7),
        4 => Some(8),
        5 => Some(9),
        6 => Some(10),
        7 => Some(11),
        8 => Some(0),
        9 => Some(2),
        10 => Some(4),
        11 => Some(5),
        12 => Some(13),
        13 => Some(12),
        14 => Some(15),
        15 => Some(14),
        _ => None,
    }
}

/// The buttons of the frontend's input bitmap, bit by bit from the lowest: A, B, X, Y, L, R,
/// Select, Start, Up, Down, Left, Right, R2, L2, R3, L3.
pub open spec fn frontend_bitmap_order() -> Seq<u32> {
    seq![
        RETRO_DEVICE_ID_JOYPAD_A,
        RETRO_DEVICE_ID_JOYPAD_B,
        RETRO_DEVICE_ID_JOYPAD_X,
        RETRO_DEVICE_ID_JOYPAD_Y,
        RETRO_DEVICE_ID_JOYPAD_L,
        RETRO_DEVICE_ID_JOYPAD_R,
        RETRO_DEVICE_ID_JOYPAD_SELECT,
        RETRO_DEVICE_ID_JOYPAD_START,
        RETRO_DEVICE_ID_JOYPAD_UP,
        RETRO_DEVICE_ID_JOYPAD_DOWN,
        RETRO_DEVICE_ID_JOYPAD_LEFT,
        RETRO_DEVICE_ID_JOYPAD_RIGHT,
        RETRO_DEVICE_ID_JOYPAD_R2,
        RETRO_DEVICE_ID_JOYPAD_L2,
        RETRO_DEVICE_ID_JOYPAD_R3,
        RETRO_DEVICE_ID_JOYPAD_L3,
    ]
}

/// Each libretro joypad button reads the bit of the same button in the frontend's bitmap,
/// and an id that names no joypad button has no bit.
pub proof fn law_button_bits_follow_the_bitmap()
    ensures
        forall|i: int| 0 <= i < 16 ==> #[trigger] button_bit(frontend_bitmap_order()[i]) == Some(i as u16),
        forall|id: u32| id >= 16 ==> #[trigger] button_bit(id) is None,
{
    assert forall|i: int| 0 <= i < 16 implies #[trigger] button_bit(frontend_bitmap_order()[i]) == Some(i as u16) by {
        let o = frontend_bitmap_order();
        if i == 0 {
            assert(o[i] == 8);
        } else if i == 1 {
            assert(o[i] == 0);
        } else if i == 2 {
            assert(o[i] == 9);
        } else if i == 3 {
            assert(o[i] == 1);
        } else if i == 4 {
            assert(o[i] == 10);
        } else if i == 5 {
            assert(o[i] == 11);
        } else if i == 6 {
            assert(o[i] == 2);
        } else if i == 7 {
            assert(o[i] == 3);
        } else if i == 8 {
            assert(o[i] == 4);
        } else if i == 9 {
            assert(o[i] == 5);
        } else if i == 10 {
            assert(o[i] == 6);
        } else if i == 11 {
            assert(o[i] == 7);
        } else if i == 12 {
            assert(o[i] == 13);
        } else if i == 13 {
            assert(o[i] == 12);
        } else if i == 14 {
            assert(o[i] == 15);
        } else {
            assert(o[i] == 14);
        }
    }
}

/// A core polling a joypad button of a player reads 1 exactly when that button's bit of
/// the frontend's bitmap is set in the player's packet.
pub proof fn law_joypad_reads_its_own_bit(players: Seq<ControllerInput>, port: u32, i: int)
    requires
        port < MAX_PLAYERS,
        0 <= i < 16,
    ensures
        input_value(players, port, RETRO_DEVICE_JOYPAD, 0, frontend_bitmap_order()[i]) == (if (players[port as int].key_state
            >> (i as u16)) & 1 == 1 {
            1i16
        } else {
            0i16
        }),
{
    law_button_bits_follow_the_bitmap();
    assert(button_bit(frontend_bitmap_order()[i]) == Some(i as u16));
    assert(frontend_bitmap_order()[i] < 16);
}

/// One player's controls: a button bitmap and four analog axes.
#[derive(Debug, Clone, Copy, PartialEq, Eq, Structural)]
pub struct ControllerInput {
    pub key_state: u16,
    pub axis0: i16,
    pub axis1: i16,
    pub axis2: i16,
    pub axis3: i16,
}

/// The signed 16-bit value of two little-endian bytes.
pub open spec fn le_i16(lo: u8, hi: u8) -> int {
    let u = lo + 256 * hi;
    if u >= 32768 {
        u - 65536
    } else {
        u
    }
}

/// Axis `i` of an input packet: the little-endian pair after the buttons, or zero when the
/// packet is too short.
pub open spec fn packet_axis(raw: Seq<u8>, i: int) -> int {
    let offset = (i + 1) * 2;
    if offset + 1 < raw.len() {
        le_i16(raw[offset], raw[offset + 1])
    } else {
        0
    }
}

/// What an input packet sets a player's controls to; too short a packet sets nothing.
pub open spec fn decoded_packet(raw: Seq<u8>) -> Option<ControllerInput> {
    if raw.len() < 2 {
        None
    } else {
        Some(
            ControllerInput {
                key_state: (raw[0] + 256 * raw[1]) as u16,
                axis0: packet_axis(raw, 0) as i16,
                axis1: packet_axis(raw, 1) as i16,
                axis2: packet_axis(raw, 2) as i16,
                axis3: packet_axis(raw, 3) as i16,
            },
        )
    }
}

fn read_axis(raw: &[u8], i: usize) -> (v: i16)
    requires
        i < MAX_AXES,
    ensures
        v == packet_axis(raw@, i as int),
{
    let offset = (i + 1) * 2;
    if offset + 1 < raw.len() {
        let u: i32 = raw[offset] as i32 + 256 * (raw[offset + 1] as i32);
        if u >= 32768 {
            (u - 65536) as i16
        } else {
            u as i16
        }
    } else {
        0
    }
}

/// Reads an input packet: the button bitmap in the first two bytes (little-endian), then up
/// to four little-endian signed axes.
pub fn decode_input_packet(raw: &[u8]) -> (r: Option<ControllerInput>)
    ensures
        r == decoded_packet(raw@),
{
    if raw.len() < 2 {
        return None;
    }
    let key_state: u16 = raw[0] as u16 + 256 * (raw[1] as u16);
    Some(
        ControllerInput {
            key_state,
            axis0: read_axis(raw, 0),
            axis1: read_axis(raw, 1),
            axis2: read_axis(raw, 2),
            axis3: read_axis(raw, 3),
        },
    )
}

/// The controls of every player.
pub struct ControllerStates {
    players: Vec<ControllerInput>,
}

/// A player with nothing pressed and the sticks centred.
pub open spec fn idle_input() -> ControllerInput {
    ControllerInput { key_state: 0, axis0: 0, axis1: 0, axis2: 0, axis3: 0 }
}

/// Axis `axis` of a player's controls.
pub open spec fn axis_of(c: ControllerInput, axis: int) -> i16 {
    if axis == 0 {
        c.axis0
    } else if axis == 1 {
        c.axis1
    } else if axis == 2 {
        c.axis2
    } else {
        c.axis3
    }
}

/// What a core reads when it polls a control: an analog axis, or whether a joypad button is
/// held; anything else reads zero.
pub open spec fn input_value(players: Seq<ControllerInput>, port: u32, device: u32, index: u32, id: u32) -> i16 {
    if port >= MAX_PLAYERS {
        0
    } else if device == RETRO_DEVICE_ANALOG {
        if index > RETRO_DEVICE_INDEX_ANALOG_RIGHT || id > RETRO_DEVICE_ID_ANALOG_Y {
            0
        } else {
            axis_of(players[port as int], index * 2 + id)
        }
    } else if id >= 255 || index > 0 || device != RETRO_DEVICE_JOYPAD {
        0
    } else {
        match button_bit(id) {
            Some(bit) => if (players[port as int].key_state >> bit) & 1 == 1 {
                1
            } else {
                0
            },
            None => 0,
        }
    }
}

impl View for ControllerStates {
    type V = Seq<ControllerInput>;

    closed spec fn view(&self) -> Seq<ControllerInput> {
        self.players@
    }
}

impl ControllerStates {
    /// One entry per player.
    pub closed spec fn wf(&self) -> bool {
        self.players@.len() == MAX_PLAYERS
    }

    /// Every player idle.
    pub fn new() -> (s: Self)
        ensures
            s.wf(),
            s@ == Seq::new(MAX_PLAYERS as nat, |i: int| idle_input()),
    {
        let mut players: Vec<ControllerInput> = Vec::new();
        let mut i: usize = 0;
        while i < MAX_PLAYERS
            invariant
                i <= MAX_PLAYERS,
                players@ == Seq::new(i as nat, |k: int| idle_input()),
            decreases MAX_PLAYERS - i,
        {
            players.push(ControllerInput { key_state: 0, axis0: 0, axis1: 0, axis2: 0, axis3: 0 });
            i = i + 1;
            assert(players@ =~= Seq::new(i as nat, |k: int| idle_input()));
        }
        ControllerStates { players }
    }

    /// Applies an input packet to a player: refused for a port beyond the players, ignored
    /// when the packet is too short.
    pub fn update_input_state(&mut self, port: usize, raw: &[u8]) -> (r: Result<(), ()>)
        requires
            old(self).wf(),
        ensures
            final(self).wf(),
            r is Err <==> port >= MAX_PLAYERS,
            port >= MAX_PLAYERS ==> final(self)@ == old(self)@,
            port < MAX_PLAYERS ==> final(self)@ == match decoded_packet(raw@) {
                Some(c) => old(self)@.update(port as int, c),
                None => old(self)@,
            },
    {
        if port >= MAX_PLAYERS {
            return Err(());
        }
        match decode_input_packet(raw) {
            Some(c) => {
                self.players.set(port, c);
            },
            None => {},
        }
        Ok(())
    }

    /// What a core reads when it polls a player's control.
    pub fn input_state(&self, port: u32, device: u32, index: u32, id: u32) -> (v: i16)
        requires
            self.wf(),
        ensures
            v == input_value(self@, port, device, index, id),
    {
        if port as usize >= MAX_PLAYERS {
            return 0;
        }
        let c = self.players[port as usize];
        if device == RETRO_DEVICE_ANALOG {
            if index > RETRO_DEVICE_INDEX_ANALOG_RIGHT || id > RETRO_DEVICE_ID_ANALOG_Y {
                return 0;
            }
            let axis = index * 2 + id;
            return if axis == 0 {
                c.axis0
            } else if axis == 1 {
                c.axis1
            } else if axis == 2 {
                c.axis2
            } else {
                c.axis3
            };
        }
        if id >= 255 || index > 0 || device != RETRO_DEVICE_JOYPAD {
            return 0;
        }
        match button_bit_index(id) {
            Some(bit) => if (c.key_state >> bit) & 1 == 1 {
                1
            } else {
                0
            },
            None => 0,
        }
    }
}

pub const RETRO_ENVIRONMENT_SET_ROTATION: u32 = 1;
pub const RETRO_ENVIRONMENT_GET_OVERSCAN: u32 = 2;
pub const RETRO_ENVIRONMENT_GET_CAN_DUPE: u32 = 3;
pub const RETRO_ENVIRONMENT_SET_MESSAGE: u32 = 6;
pub const RETRO_ENVIRONMENT_SHUTDOWN: u32 = 7;
pub const RETRO_ENVIRONMENT_GET_SYSTEM_DIRECTORY: u32 = 9;
pub const RETRO_ENVIRONMENT_SET_PIXEL_FORMAT: u32 = 10;
pub const RETRO_ENVIRONMENT_SET_INPUT_DESCRIPTORS: u32 = 11;
pub const RETRO_ENVIRONMENT_SET_KEYBOARD_CALLBACK: u32 = 12;
pub const RETRO_ENVIRONMENT_SET_DISK_CONTROL_INTERFACE: u32 = 13;
pub const RETRO_ENVIRONMENT_SET_HW_RENDER: u32 = 14;
pub const RETRO_ENVIRONMENT_GET_VARIABLE: u32 = 15;
pub const RETRO_ENVIRONMENT_SET_VARIABLES: u32 = 16;
pub const RETRO_ENVIRONMENT_GET_VARIABLE_UPDATE: u32 = 17;
pub const RETRO_ENVIRONMENT_SET_FRAME_TIME_CALLBACK: u32 = 21;
pub const RETRO_ENVIRONMENT_GET_LOG_INTERFACE: u32 = 27;
pub const RETRO_ENVIRONMENT_GET_SAVE_DIRECTORY: u32 = 31;
pub const RETRO_ENVIRONMENT_SET_CONTROLLER_INFO: u32 = 35;
pub const RETRO_ENVIRONMENT_GET_USERNAME: u32 = 38;
pub const RETRO_ENVIRONMENT_GET_LANGUAGE: u32 = 39;

/// How the frontend answers a core's environment request.
#[derive(Debug, Clone, Copy, PartialEq, Eq, Structural)]
pub enum EnvironmentReply {
    /// Answer with this code and do nothing else.
    Code(u8),
    /// Write this byte to the flag the core passed, if any, and answer 1.
    WriteFlag(u8),
    /// Record the pixel format the core passed; answer 1 for a known format, else 0.
    SetPixelFormat,
    /// Hand out the system directory, if the core passed somewhere to put it, and answer 1.
    SystemDirectory,
    /// Hand out the save directory, if the core passed somewhere to put it, and answer 1.
    SaveDirectory,
    /// Look the variable up in the core options; answer 1 when found.
    LookupVariable,
    /// Hand out the user name, if the core passed somewhere to put it, and answer 1.
    Username,
    /// Write language 0 (English), if the core passed somewhere to put it, and answer 1.
    Language,
    /// Record that the core asked to shut down, and answer 1.
    Shutdown,
}

/// The reply to environment command `cmd`; hardware rendering is accepted only when GL
/// is allowed.
pub open spec fn environment_reply_of(cmd: u32, gl_allowed: bool) -> EnvironmentReply {
    if cmd == RETRO_ENVIRONMENT_GET_CAN_DUPE || cmd == RETRO_ENVIRONMENT_GET_OVERSCAN {
        EnvironmentReply::WriteFlag(1)
    } else if cmd == RETRO_ENVIRONMENT_SET_PIXEL_FORMAT {
        EnvironmentReply::SetPixelFormat
    } else if cmd == RETRO_ENVIRONMENT_GET_SYSTEM_DIRECTORY {
        EnvironmentReply::SystemDirectory
    } else if cmd == RETRO_ENVIRONMENT_GET_SAVE_DIRECTORY {
        EnvironmentReply::SaveDirectory
    } else if cmd == RETRO_ENVIRONMENT_GET_VARIABLE {
        EnvironmentReply::LookupVariable
    } else if cmd == RETRO_ENVIRONMENT_GET_VARIABLE_UPDATE {
        EnvironmentReply::WriteFlag(0)
    } else if cmd == RETRO_ENVIRONMENT_SET_HW_RENDER {
        EnvironmentReply::Code(if gl_allowed { 1 } else { 0 })
    } else if cmd == RETRO_ENVIRONMENT_GET_USERNAME {
        EnvironmentReply::Username
    } else if cmd == RETRO_ENVIRONMENT_GET_LANGUAGE {
        EnvironmentReply::Language
    } else if cmd == RETRO_ENVIRONMENT_SHUTDOWN {
        EnvironmentReply::Shutdown
    } else if cmd == RETRO_ENVIRONMENT_SET_ROTATION || cmd == RETRO_ENVIRONMENT_SET_VARIABLES || cmd
        == RETRO_ENVIRONMENT_SET_INPUT_DESCRIPTORS || cmd == RETRO_ENVIRONMENT_SET_KEYBOARD_CALLBACK || cmd
        == RETRO_ENVIRONMENT_SET_DISK_CONTROL_INTERFACE || cmd == RETRO_ENVIRONMENT_SET_FRAME_TIME_CALLBACK || cmd
        == RETRO_ENVIRONMENT_SET_CONTROLLER_INFO || cmd == RETRO_ENVIRONMENT_SET_MESSAGE {
        EnvironmentReply::Code(1)
    } else {
        EnvironmentReply::Code(0)
    }
}

/// How to answer a core's environment request.
pub fn environment_reply(cmd: u32, gl_allowed: bool) -> (r: EnvironmentReply)
    ensures
        r == environment_reply_of(cmd, gl_allowed),
{
    match cmd {
        RETRO_ENVIRONMENT_GET_CAN_DUPE | RETRO_ENVIRONMENT_GET_OVERSCAN => EnvironmentReply::WriteFlag(1),
        RETRO_ENVIRONMENT_SET_PIXEL_FORMAT => EnvironmentReply::SetPixelFormat,
        RETRO_ENVIRONMENT_GET_SYSTEM_DIRECTORY => EnvironmentReply::SystemDirectory,
        RETRO_ENVIRONMENT_GET_SAVE_DIRECTORY => EnvironmentReply::SaveDirectory,
        RETRO_ENVIRONMENT_GET_VARIABLE => EnvironmentReply::LookupVariable,
        RETRO_ENVIRONMENT_GET_VARIABLE_UPDATE => EnvironmentReply::WriteFlag(0),
        RETRO_ENVIRONMENT_SET_HW_RENDER => EnvironmentReply::Code(if gl_allowed { 1 } else { 0 }),
        RETRO_ENVIRONMENT_GET_USERNAME => EnvironmentReply::Username,
        RETRO_ENVIRONMENT_GET_LANGUAGE => EnvironmentReply::Language,
        RETRO_ENVIRONMENT_SHUTDOWN => EnvironmentReply::Shutdown,
        RETRO_ENVIRONMENT_SET_ROTATION | RETRO_ENVIRONMENT_SET_VARIABLES | RETRO_ENVIRONMENT_SET_INPUT_DESCRIPTORS
        | RETRO_ENVIRONMENT_SET_KEYBOARD_CALLBACK | RETRO_ENVIRONMENT_SET_DISK_CONTROL_INTERFACE
        | RETRO_ENVIRONMENT_SET_FRAME_TIME_CALLBACK | RETRO_ENVIRONMENT_SET_CONTROLLER_INFO
        | RETRO_ENVIRONMENT_SET_MESSAGE => EnvironmentReply::Code(1),
        _ => EnvironmentReply::Code(0),
    }
}

/// Whether a pixel format number is one the frontend converts.
pub fn is_supported_pixel_format(raw: u32) -> (b: bool)
    ensures
        b == !(pixel_format_of(raw) is Unknown),
{
    raw == RETRO_PIXEL_FORMAT_0RGB1555 || raw == RETRO_PIXEL_FORMAT_XRGB8888 || raw == RETRO_PIXEL_FORMAT_RGB565
}

/// The number of bytes of a frame a core hands over, or `None` when there is no frame to
/// copy: no data, a hardware-rendered frame, a zero size or pitch, or no bytes at all.
pub fn video_frame_len(has_data: bool, hw_frame: bool, width: u32, height: u32, pitch: usize) -> (r: Option<usize>)
    ensures
        r == (if !has_data || hw_frame || pitch == 0 || width == 0 || height == 0 {
            None
        } else if pitch * height > usize::MAX {
            Some(usize::MAX)
        } else {
            Some((pitch * height) as usize)
        }),
{
    if !has_data || hw_frame || pitch == 0 || width == 0 || height == 0 {
        return None;
    }
    let h = height as usize;
    match pitch.checked_mul(h) {
        Some(n) => Some(n),
        None => Some(usize::MAX),
    }
}

/// The number of samples an audio batch passes on: two per frame, for the frames the
/// listener took, at most the frames there are.
pub fn audio_batch_samples(sample_count: usize, frames_taken: usize) -> (n: usize)
    ensures
        n == 2 * crate::video::min_int(frames_taken as int, (sample_count / 2) as int),
{
    let frames = sample_count / 2;
    let emit = if frames_taken < frames { frames_taken } else { frames };
    emit * 2
}

/// The first position from `i` on where `s` holds `c`, or the length of `s`.
pub open spec fn find_char(s: Seq<char>, c: char, i: int) -> int
    decreases s.len() - i,
{
    if i < 0 || i >= s.len() {
        s.len() as int
    } else if s[i] == c {
        i
    } else {
        find_char(s, c, i + 1)
    }
}

/// `find_char` lands at or after where it starts, and within the string.
pub proof fn lemma_find_char_bounds(s: Seq<char>, c: char, i: int)
    requires
        0 <= i <= s.len(),
    ensures
        i <= find_char(s, c, i) <= s.len(),
        find_char(s, c, i) < s.len() ==> s[find_char(s, c, i)] == c,
        forall|k: int| i <= k < find_char(s, c, i) ==> s[k] != c,
    decreases s.len() - i,
{
    if i < s.len() && s[i] != c {
        lemma_find_char_bounds(s, c, i + 1);
    }
}

/// The `key=value` entry of one line of a core options file: both sides trimmed, the
/// value empty when there is no `=`; blank lines and lines without a key give nothing.
pub open spec fn config_entry(line: Seq<char>) -> Seq<(Seq<char>, Seq<char>)> {
    let t = trim_seq(line);
    let p = find_char(t, '=', 0);
    let key = trim_seq(t.subrange(0, p));
    if t.len() == 0 || p < 0 || p > t.len() || key.len() == 0 {
        Seq::empty()
    } else if p < t.len() {
        seq![(key, trim_seq(t.subrange(p + 1, t.len() as int)))]
    } else {
        seq![(key, Seq::empty())]
    }
}

/// The entries of the lines of `s` from position `start` on, lines ending at `\n`.
pub open spec fn config_from(s: Seq<char>, start: int) -> Seq<(Seq<char>, Seq<char>)>
    decreases s.len() - start,
{
    if start < 0 || start > s.len() {
        Seq::empty()
    } else {
        let p = find_char(s, '\n', start);
        proof {
            lemma_find_char_bounds(s, '\n', start);
        }
        if p >= s.len() {
            config_entry(s.subrange(start, s.len() as int))
        } else {
            config_entry(s.subrange(start, p)) + config_from(s, p + 1)
        }
    }
}

/// Entries seen through the strings' contents.
pub open spec fn entries_view(v: Seq<(String, String)>) -> Seq<(Seq<char>, Seq<char>)> {
    v.map_values(|e: (String, String)| (e.0@, e.1@))
}

fn parse_config_line(line: &str, out: &mut Vec<(String, String)>)
    ensures
        entries_view(final(out)@) == entries_view(old(out)@) + config_entry(line@),
{
    let t = trim_str(line);
    let v = chars_of(t.as_str());
    let mut p: usize = 0;
    while p < v.len() && v[p] != '='
        invariant
            p <= v.len(),
            v@ == trim_seq(line@),
            find_char(v@, '=', 0) == find_char(v@, '=', p as int),
        decreases v.len() - p,
    {
        p = p + 1;
    }
    assert(find_char(v@, '=', 0) == p);
    if v.len() == 0 {
        assert(entries_view(out@) =~= entries_view(old(out)@) + config_entry(line@));
        return;
    }
    let key_raw = string_from_range(&v, 0, p);
    let key = trim_str(key_raw.as_str());
    if key.as_str().is_empty() {
        assert(entries_view(out@) =~= entries_view(old(out)@) + config_entry(line@));
        return;
    }
    let value = if p < v.len() {
        let value_raw = string_from_range(&v, p + 1, v.len());
        trim_str(value_raw.as_str())
    } else {
        String::new()
    };
    let ghost e = (key@, value@);
    out.push((key, value));
    assert(entries_view(out@) =~= entries_view(old(out)@) + config_entry(line@)) by {
        assert(config_entry(line@) == seq![e]);
    }
}

/// Reads a core options file: one `key=value` per line, both sides trimmed; blank lines and
/// lines without a key are skipped.
pub fn parse_config_data(raw: &str) -> (entries: Vec<(String, String)>)
    ensures
        entries_view(entries@) == config_from(raw@, 0),
{
    let v = chars_of(raw);
    let mut out: Vec<(String, String)> = Vec::new();
    let mut start: usize = 0;
    let mut i: usize = 0;
    assert(entries_view(out@) + config_from(raw@, 0) =~= config_from(raw@, 0));
    while i < v.len()
        invariant
            v@ == raw@,
            start <= i <= v.len(),
            find_char(v@, '\n', start as int) == find_char(v@, '\n', i as int),
            config_from(raw@, 0) == entries_view(out@) + config_from(raw@, start as int),
        decreases v.len() - i,
    {
        if v[i] == '\n' {
            let line = string_from_range(&v, start, i);
            let ghost before = entries_view(out@);
            parse_config_line(line.as_str(), &mut out);
            proof {
                assert(find_char(v@, '\n', start as int) == i);
                assert(config_from(raw@, start as int) == config_entry(v@.subrange(start as int, i as int)) + config_from(
                    raw@,
                    i + 1,
                ));
                assert(config_from(raw@, 0) =~= entries_view(out@) + config_from(raw@, i + 1));
            }
            start = i + 1;
        }
        i = i + 1;
    }
    let line = string_from_range(&v, start, v.len());
    parse_config_line(line.as_str(), &mut out);
    proof {
        assert(find_char(v@, '\n', start as int) == v@.len());
        assert(config_from(raw@, start as int) == config_entry(v@.subrange(start as int, v@.len() as int)));
        assert(config_from(raw@, 0) =~= entries_view(out@));
    }
    out
}

} // verus!
