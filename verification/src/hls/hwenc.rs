//! Choice of the H.264 encoder for the transcode path.
//!
//! It is made once, at start-up, from the operator's wish, from what the local
//! ffmpeg lists, and from the machine. A wish that cannot be met leads to the
//! software encoder.

use crate::text;
use vstd::prelude::*;

verus! {

#[derive(Copy, Clone, Debug, PartialEq, Eq, Structural)]
pub enum HwEncoder {
    Software,
    Vaapi,
    Qsv,
    VideoToolbox,
}

impl HwEncoder {
    pub open spec fn name(self) -> Seq<char> {
        match self {
            HwEncoder::Software => "libx264"@,
            HwEncoder::Vaapi => "h264_vaapi"@,
            HwEncoder::Qsv => "h264_qsv"@,
            HwEncoder::VideoToolbox => "h264_videotoolbox"@,
        }
    }

    /// ffmpeg's name for the encoder; `libx264` for `Software`.
    pub fn ffmpeg_name(self) -> (r: &'static str)
        ensures
            r@ == self.name(),
    {
        match self {
            HwEncoder::Software => "libx264",
            HwEncoder::Vaapi => "h264_vaapi",
            HwEncoder::Qsv => "h264_qsv",
            HwEncoder::VideoToolbox => "h264_videotoolbox",
        }
    }
}

/// Which hardware encoders the local ffmpeg was built with.
#[derive(Copy, Clone, Debug, PartialEq, Eq, Structural)]
pub struct EncoderSet {
    pub vaapi: bool,
    pub qsv: bool,
    pub videotoolbox: bool,
}

/// What an encoder depends on besides ffmpeg.
#[derive(Copy, Clone, Debug, PartialEq, Eq, Structural)]
pub struct Machine {
    pub linux: bool,
    pub macos: bool,
    /// A DRI render device is present.
    pub render_device: bool,
}

/// The encoders that the output of `ffmpeg -encoders` names.
pub fn listed_encoders(listing: &str) -> (r: EncoderSet)
    ensures
        r.vaapi == text::has_text(listing@, "h264_vaapi"@),
        r.qsv == text::has_text(listing@, "h264_qsv"@),
        r.videotoolbox == text::has_text(listing@, "h264_videotoolbox"@),
{
    EncoderSet {
        vaapi: text::contains(listing, "h264_vaapi"),
        qsv: text::contains(listing, "h264_qsv"),
        videotoolbox: text::contains(listing, "h264_videotoolbox"),
    }
}

/// A name in the device directory that stands for a render device.
pub fn is_render_node(name: &str) -> (r: bool)
    ensures
        r == text::begins_with(name@, "renderD"@),
{
    text::starts_with(name, "renderD")
}

/// The encoder that is taken where the operator leaves the choice open.
pub open spec fn automatic(listed: EncoderSet, machine: Machine) -> HwEncoder {
    if machine.linux && machine.render_device && listed.vaapi {
        HwEncoder::Vaapi
    } else if machine.linux && machine.render_device && listed.qsv {
        HwEncoder::Qsv
    } else if machine.macos && listed.videotoolbox {
        HwEncoder::VideoToolbox
    } else {
        HwEncoder::Software
    }
}

/// The first encoder that is listed and whose device is there.
pub fn auto_pick(listed: &EncoderSet, machine: &Machine) -> (r: HwEncoder)
    ensures
        r == automatic(*listed, *machine),
{
    if machine.linux && machine.render_device {
        if listed.vaapi {
            return HwEncoder::Vaapi;
        }
        if listed.qsv {
            return HwEncoder::Qsv;
        }
    }
    if machine.macos && listed.videotoolbox {
        return HwEncoder::VideoToolbox;
    }
    HwEncoder::Software
}

/// ffmpeg has the encoder, and on Linux the render device that it needs is there.
pub open spec fn usable(want: HwEncoder, listed: EncoderSet, machine: Machine) -> bool {
    let needs_device = machine.linux && (want is Vaapi || want is Qsv);
    &&& match want {
        HwEncoder::Vaapi => listed.vaapi,
        HwEncoder::Qsv => listed.qsv,
        HwEncoder::VideoToolbox => listed.videotoolbox,
        HwEncoder::Software => true,
    }
    &&& needs_device ==> machine.render_device
}

/// The encoder asked for if it is usable, else the software encoder.
pub fn validate_explicit(want: HwEncoder, listed: &EncoderSet, machine: &Machine) -> (r: HwEncoder)
    ensures
        r == if usable(want, *listed, *machine) {
            want
        } else {
            HwEncoder::Software
        },
{
    let ok = match want {
        HwEncoder::Vaapi => listed.vaapi,
        HwEncoder::Qsv => listed.qsv,
        HwEncoder::VideoToolbox => listed.videotoolbox,
        HwEncoder::Software => true,
    };
    if !ok {
        return HwEncoder::Software;
    }
    let on_device = match want {
        HwEncoder::Vaapi => true,
        HwEncoder::Qsv => true,
        _ => false,
    };
    if machine.linux && on_device && !machine.render_device {
        return HwEncoder::Software;
    }
    want
}

/// What the operator's setting asks for: trimmed, in any case; `auto` where it is
/// not set.
pub open spec fn requested(setting: Option<Seq<char>>) -> Seq<char> {
    match setting {
        Some(s) => text::ascii_lower_text(text::trimmed(s)),
        None => "auto"@,
    }
}

/// The encoder for a setting; `listed` is `None` where ffmpeg could not be asked.
pub open spec fn chosen(
    setting: Option<Seq<char>>,
    listed: Option<EncoderSet>,
    machine: Machine,
) -> HwEncoder {
    let want = requested(setting);
    match listed {
        None => HwEncoder::Software,
        Some(l) => if want == "none"@ {
            HwEncoder::Software
        } else if want == "auto"@ {
            automatic(l, machine)
        } else if want == "vaapi"@ && usable(HwEncoder::Vaapi, l, machine) {
            HwEncoder::Vaapi
        } else if want == "qsv"@ && usable(HwEncoder::Qsv, l, machine) {
            HwEncoder::Qsv
        } else if want == "videotoolbox"@ && usable(HwEncoder::VideoToolbox, l, machine) {
            HwEncoder::VideoToolbox
        } else {
            HwEncoder::Software
        },
    }
}

/// Whether ffmpeg has to be asked for its encoders at all.
pub fn needs_listing(setting: Option<&str>) -> (r: bool)
    ensures
        r == (requested(crate::types::opt_str(setting)) != "none"@),
{
    match setting {
        Some(s) => {
            let t = text::trim(s);
            let want = text::to_ascii_lower(t.as_str());
            !(*want.as_str() == *"none")
        },
        None => {
            proof {
                reveal_strlit("auto");
                reveal_strlit("none");
                assert("auto"@[0] != "none"@[0]);
            }
            true
        },
    }
}

/// Picks the encoder from the operator's setting, ffmpeg's list and the machine.
pub fn detect(setting: Option<&str>, listed: Option<EncoderSet>, machine: &Machine) -> (r: HwEncoder)
    ensures
        r == chosen(crate::types::opt_str(setting), listed, *machine),
{
    let want = match setting {
        Some(s) => {
            let t = text::trim(s);
            text::to_ascii_lower(t.as_str())
        },
        None => text::own("auto"),
    };
    proof {
        reveal_strlit("none");
        reveal_strlit("auto");
        reveal_strlit("vaapi");
        reveal_strlit("qsv");
        reveal_strlit("videotoolbox");
        assert("auto"@ != "vaapi"@ && "auto"@ != "qsv"@ && "auto"@ != "videotoolbox"@) by {
            assert("auto"@[0] != "vaapi"@[0]);
            assert("auto"@[0] != "qsv"@[0]);
            assert("auto"@[0] != "videotoolbox"@[0]);
        }
        assert("vaapi"@.len() != "qsv"@.len());
        assert("vaapi"@.len() != "videotoolbox"@.len());
        assert("qsv"@.len() != "videotoolbox"@.len());
    }
    match listed {
        None => HwEncoder::Software,
        Some(l) => {
            let w = want.as_str();
            if *w == *"none" {
                HwEncoder::Software
            } else if *w == *"auto" {
                auto_pick(&l, machine)
            } else if *w == *"vaapi" {
                validate_explicit(HwEncoder::Vaapi, &l, machine)
            } else if *w == *"qsv" {
                validate_explicit(HwEncoder::Qsv, &l, machine)
            } else if *w == *"videotoolbox" {
                validate_explicit(HwEncoder::VideoToolbox, &l, machine)
            } else {
                HwEncoder::Software
            }
        },
    }
}

/// Whatever is chosen can be used on this machine.
pub proof fn chosen_is_usable(setting: Option<Seq<char>>, listed: EncoderSet, machine: Machine)
    ensures
        usable(chosen(setting, Some(listed), machine), listed, machine),
{
}

// ---- further laws ----

/// Left to itself, Linux takes VA-API before QSV, each only with a render device; macOS takes
/// VideoToolbox; whoever has none of them encodes in software.
pub proof fn own_choice_goes_by_the_machine(listed: EncoderSet, machine: Machine)
    ensures
        machine.linux && machine.render_device && listed.vaapi ==> automatic(listed, machine)
            == HwEncoder::Vaapi,
        machine.linux && machine.render_device && !listed.vaapi && listed.qsv ==> automatic(
            listed,
            machine,
        ) == HwEncoder::Qsv,
        !machine.linux && machine.macos && listed.videotoolbox ==> automatic(listed, machine)
            == HwEncoder::VideoToolbox,
        machine.linux && !machine.macos && !machine.render_device ==> automatic(listed, machine)
            == HwEncoder::Software,
        !machine.linux && !machine.macos ==> automatic(listed, machine) == HwEncoder::Software,
        automatic(listed, machine) is Vaapi ==> listed.vaapi && machine.render_device,
        automatic(listed, machine) is Qsv ==> listed.qsv && machine.render_device,
        automatic(listed, machine) is VideoToolbox ==> listed.videotoolbox && machine.macos,
{
}

/// What the operator asks for by name is taken where ffmpeg has it and, on Linux, the render
/// device is there that it needs; any word that is no name leads to software.
pub proof fn wish_is_met_where_it_can_be(
    setting: Seq<char>,
    listed: EncoderSet,
    machine: Machine,
)
    ensures
        ({
            let word = text::ascii_lower_text(text::trimmed(setting));
            let got = chosen(Some(setting), Some(listed), machine);
            let device = machine.linux ==> machine.render_device;
            &&& word == "vaapi"@ ==> got == if listed.vaapi && device {
                HwEncoder::Vaapi
            } else {
                HwEncoder::Software
            }
            &&& word == "qsv"@ ==> got == if listed.qsv && device {
                HwEncoder::Qsv
            } else {
                HwEncoder::Software
            }
            &&& word == "videotoolbox"@ ==> got == if listed.videotoolbox {
                HwEncoder::VideoToolbox
            } else {
                HwEncoder::Software
            }
            &&& word == "none"@ ==> got == HwEncoder::Software
            &&& word == "auto"@ ==> got == automatic(listed, machine)
            &&& word != "vaapi"@ && word != "qsv"@ && word != "videotoolbox"@ && word != "auto"@
                ==> got == HwEncoder::Software
        }),
        chosen(None, Some(listed), machine) == automatic(listed, machine),
        chosen(Some(setting), None, machine) == HwEncoder::Software,
{
    reveal_strlit("vaapi");
    reveal_strlit("qsv");
    reveal_strlit("videotoolbox");
    reveal_strlit("none");
    reveal_strlit("auto");
    assert("vaapi"@.len() == 5 && "qsv"@.len() == 3 && "videotoolbox"@.len() == 12 && "none"@.len()
        == 4 && "auto"@.len() == 4);
    assert("none"@[0] == 'n' && "auto"@[0] == 'a');
}

} // verus!
