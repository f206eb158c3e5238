use vstd::prelude::*;

verus! {

/// How the game window is to be made.
#[derive(Debug)]
pub struct WindowConfig {
    pub resizable: bool,
    pub maximizable: bool,
    pub window_size: (u32, u32),
}

impl WindowConfig {
    /// A resizable, maximizable window of `window_size` (width, height).
    pub fn build(window_size: (u32, u32)) -> (r: WindowConfig)
        ensures
            r.resizable,
            r.maximizable,
            r.window_size == window_size,
    {
        WindowConfig { resizable: true, maximizable: true, window_size }
    }

    /// The same window, neither resizable nor maximizable.
    pub fn fixed_size(self) -> (r: WindowConfig)
        ensures
            !r.resizable,
            !r.maximizable,
            r.window_size == self.window_size,
    {
        let mut r = self;
        r.resizable = false;
        r.maximizable = false;
        r
    }
}

/// Major, minor and patch numbers.
#[derive(Debug)]
pub struct GameVersion(pub u8, pub u8, pub u8);

#[derive(Debug)]
pub struct GameInfo {
    pub name: String,
    pub target_fps: u8,
    pub version: GameVersion,
    pub window_config: WindowConfig,
}

impl GameInfo {
    /// The longest tick the driver hands out, in microseconds: one frame at
    /// the target rate.
    pub fn frame_micros(&self) -> (r: u64)
        requires
            self.target_fps > 0,
        ensures
            r == 1_000_000int / (self.target_fps as int),
    {
        1_000_000u64 / (self.target_fps as u64)
    }
}

impl Default for GameInfo {
    fn default() -> (r: GameInfo)
        ensures
            r.name@ == "My Rue Game"@,
            r.target_fps == 60,
            r.version == GameVersion(0, 1, 0),
            r.window_config.resizable,
            r.window_config.maximizable,
            r.window_config.window_size == (640u32, 480u32),
    {
        GameInfo {
            name: "My Rue Game".to_owned(),
            target_fps: 60,
            version: GameVersion(0, 1, 0),
            window_config: WindowConfig::build((640, 480)),
        }
    }
}

} // verus!
