//! Software-defined-radio demodulator selection and the wideband-FM IF rate.
use vstd::prelude::*;

verus! {

/// The selectable demodulators.
#[derive(Debug, Clone, Copy, PartialEq, Eq)]
pub enum DemodKind {
    Nbfm,
    Am,
    Wfm,
    Usb,
    Lsb,
}

/// Target WFM IF (pre-detection) rate.
pub const WFM_TARGET_IF_HZ: u32 = 180000;

/// The WFM IF rate: the smallest multiple of the channel rate that reaches
/// the target IF rate, but no more multiples than fit in the capture rate
/// (at least one), and never above the capture rate.
pub open spec fn wfm_if_rate_spec(capture: int, channel: int) -> int {
    let want = if (180000 + channel - 1) / channel >= 1 {
        (180000 + channel - 1) / channel
    } else {
        1
    };
    let cap = if capture / channel >= 1 {
        capture / channel
    } else {
        1
    };
    let mult = if want <= cap {
        want
    } else {
        cap
    };
    if channel * mult <= capture {
        channel * mult
    } else {
        capture
    }
}

/// Pick the WFM IF rate: a multiple of `channel_rate` of at least the target
/// IF rate where the capture rate allows, else the largest multiple that fits,
/// and never above the capture rate. Keeping it a multiple of the audio rate
/// makes the audio decimation a clean integer ratio.
pub fn wfm_if_rate(capture_rate: u32, channel_rate: u32) -> (r: u32)
    requires
        channel_rate > 0,
    ensures
        r == wfm_if_rate_spec(capture_rate as int, channel_rate as int),
{
    let q = WFM_TARGET_IF_HZ / channel_rate;
    let want_ceil = if WFM_TARGET_IF_HZ % channel_rate == 0 {
        q
    } else {
        q + 1
    };
    assert(want_ceil == (180000 + channel_rate - 1) / (channel_rate as int)) by (nonlinear_arith)
        requires
            channel_rate > 0,
            q == 180000int / (channel_rate as int),
            want_ceil == if 180000int % (channel_rate as int) == 0 {
                q as int
            } else {
                q + 1
            },
    ;
    let want_mult = if want_ceil >= 1 {
        want_ceil
    } else {
        1
    };
    let c = capture_rate / channel_rate;
    let cap_mult = if c >= 1 {
        c
    } else {
        1
    };
    let mult = if want_mult <= cap_mult {
        want_mult
    } else {
        cap_mult
    };
    assert(channel_rate * mult <= if capture_rate >= channel_rate {
        capture_rate as int
    } else {
        channel_rate as int
    }) by (nonlinear_arith)
        requires
            channel_rate > 0,
            c == capture_rate / channel_rate,
            mult <= cap_mult,
            cap_mult == if c >= 1 {
                c
            } else {
                1
            },
            mult >= 1,
    ;
    let v = channel_rate * mult;
    if v <= capture_rate {
        v
    } else {
        capture_rate
    }
}

/// The WFM IF rate never exceeds the capture rate, and where it is below the
/// capture rate it is a whole multiple of the channel rate.
pub proof fn lemma_wfm_if_rate_is_multiple(capture: int, channel: int)
    requires
        0 < channel,
        0 <= capture,
    ensures
        wfm_if_rate_spec(capture, channel) <= capture,
        wfm_if_rate_spec(capture, channel) < capture ==> wfm_if_rate_spec(capture, channel)
            % channel == 0,
{
    let r = wfm_if_rate_spec(capture, channel);
    if r < capture {
        let want = if (180000 + channel - 1) / channel >= 1 {
            (180000 + channel - 1) / channel
        } else {
            1
        };
        let cap = if capture / channel >= 1 {
            capture / channel
        } else {
            1
        };
        let mult = if want <= cap {
            want
        } else {
            cap
        };
        assert(r == channel * mult);
        vstd::arithmetic::div_mod::lemma_mod_multiples_basic(mult, channel);
        assert((mult * channel) % channel == 0);
        assert(channel * mult == mult * channel) by (nonlinear_arith);
    }
}

} // verus!
