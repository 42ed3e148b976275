use vstd::prelude::*;

verus! {

/// Number of selectable screen resolutions.
pub const RESOLUTION_OPTION_COUNT: usize = 3;

/// The selectable screen resolutions, by index: 1920x1080, 1280x720, 720x480.
pub open spec fn resolution_spec(index: int) -> (usize, usize) {
    if index == 0 {
        (1920, 1080)
    } else if index == 1 {
        (1280, 720)
    } else {
        (720, 480)
    }
}

/// The resolution at `index` among the selectable ones.
pub fn resolution_option(index: usize) -> (r: [usize; 2])
    requires
        index < RESOLUTION_OPTION_COUNT,
    ensures
        r@ == seq![resolution_spec(index as int).0, resolution_spec(index as int).1],
{
    let r = if index == 0 {
        [1920, 1080]
    } else if index == 1 {
        [1280, 720]
    } else {
        [720, 480]
    };
    assert(r@ =~= seq![resolution_spec(index as int).0, resolution_spec(index as int).1]);
    r
}

/// The next resolution index, wrapping from the last to the first.
pub fn next_resolution_index(index: usize) -> (r: usize)
    requires
        index < RESOLUTION_OPTION_COUNT,
    ensures
        r == (index + 1) % (RESOLUTION_OPTION_COUNT as int),
{
    (index + 1) % RESOLUTION_OPTION_COUNT
}

/// The previous resolution index, wrapping from the first to the last.
pub fn previous_resolution_index(index: usize) -> (r: usize)
    requires
        index < RESOLUTION_OPTION_COUNT,
    ensures
        r == (if index == 0 {
            RESOLUTION_OPTION_COUNT - 1
        } else {
            index - 1
        }),
{
    if index == 0 {
        RESOLUTION_OPTION_COUNT - 1
    } else {
        index - 1
    }
}

/// Display settings: window size and whether to run windowed.
#[derive(Clone, Copy, Debug)]
pub struct Settings {
    pub resolution: [usize; 2],
    pub windowed: bool,
}

impl Default for Settings {
    /// 1280x720, full screen.
    fn default() -> (r: Settings)
        ensures
            r.resolution@ == seq![1280usize, 720usize],
            !r.windowed,
    {
        let resolution = [1280, 720];
        assert(resolution@ =~= seq![1280usize, 720usize]);
        Settings { resolution, windowed: false }
    }
}

} // verus!
