//! The guest's command line.

use crate::cli;
use crate::cli::{Refusal, RefusalView};
use crate::dshow::Renderer;
use crate::text;
use vstd::prelude::*;

verus! {

/// What the guest was asked to do.
pub struct VmArgs {
    /// The audio endpoint to capture from.
    pub device_id: String,
    /// Whether audio comes through a filter graph instead of an endpoint.
    pub ds_audio: bool,
    /// Which audio device to use in the graph, by a part of its name.
    pub audio_device: Option<String>,
    /// Whether to keep a video stream open.
    pub video_keepalive: bool,
    /// Which video device to use, by a part of its name.
    pub video_device: Option<String>,
    /// What becomes of video that is only kept open.
    pub video_renderer: Renderer,
    /// Whether to forward video frames.
    pub video_passthrough: bool,
}

/// [`VmArgs`] as contracts speak of them.
#[verifier::ext_equal]
pub struct VmSettings {
    pub device_id: Seq<char>,
    pub ds_audio: bool,
    pub audio_device: Option<Seq<char>>,
    pub video_keepalive: bool,
    pub video_device: Option<Seq<char>>,
    pub video_renderer: Renderer,
    pub video_passthrough: bool,
}

/// An optional text as contracts speak of it.
pub open spec fn optional(s: Option<String>) -> Option<Seq<char>> {
    match s {
        Some(s) => Some(s@),
        None => None,
    }
}

impl View for VmArgs {
    type V = VmSettings;

    open spec fn view(&self) -> VmSettings {
        VmSettings {
            device_id: self.device_id@,
            ds_audio: self.ds_audio,
            audio_device: optional(self.audio_device),
            video_keepalive: self.video_keepalive,
            video_device: optional(self.video_device),
            video_renderer: self.video_renderer,
            video_passthrough: self.video_passthrough,
        }
    }
}

/// The settings of an empty command line where `default_device` is the endpoint to
/// capture from unless one is given.
pub open spec fn vm_defaults(default_device: Seq<char>) -> VmSettings {
    VmSettings {
        device_id: default_device,
        ds_audio: false,
        audio_device: None,
        video_keepalive: false,
        video_device: None,
        video_renderer: Renderer::Null,
        video_passthrough: false,
    }
}

/// The settings with a switch turned on; none if there is no such switch. Forwarding
/// video goes through the graph that also carries the audio.
pub open spec fn with_switch(s: VmSettings, word: Seq<char>) -> Option<VmSettings> {
    if word == "--ds-audio"@ {
        Some(VmSettings { ds_audio: true, ..s })
    } else if word == "--video-keepalive"@ {
        Some(VmSettings { video_keepalive: true, ..s })
    } else if word == "--video-passthrough"@ {
        Some(VmSettings { video_passthrough: true, ds_audio: true, ..s })
    } else {
        None
    }
}

/// Whether a word is an option that takes a value.
pub open spec fn is_vm_option(word: Seq<char>) -> bool {
    ||| word == "--device"@
    ||| word == "--audio-device"@
    ||| word == "--video-device"@
    ||| word == "--video-renderer"@
}

/// The renderer with a name.
pub open spec fn renderer_named(name: Seq<char>) -> Option<Renderer> {
    if name == "null"@ {
        Some(Renderer::Null)
    } else if name == "window"@ {
        Some(Renderer::Window)
    } else {
        None
    }
}

/// The settings with an option set to a value; none if the value is no good. To name
/// an audio device implies capturing from a graph, to name a video device implies
/// keeping it open.
pub open spec fn with_vm_option(s: VmSettings, option: Seq<char>, value: Seq<char>) -> Option<
    VmSettings,
> {
    if option == "--device"@ {
        Some(VmSettings { device_id: value, ..s })
    } else if option == "--audio-device"@ {
        Some(VmSettings { audio_device: Some(value), ds_audio: true, ..s })
    } else if option == "--video-device"@ {
        Some(VmSettings { video_device: Some(value), video_keepalive: true, ..s })
    } else {
        match renderer_named(value) {
            Some(r) => Some(VmSettings { video_renderer: r, ..s }),
            None => None,
        }
    }
}

/// The settings that a command line gives, starting from `s`: its switches and
/// options in order, a later one over an earlier one.
pub open spec fn vm_settings(words: Seq<Seq<char>>, s: VmSettings) -> Result<
    VmSettings,
    RefusalView,
>
    decreases words.len(),
{
    if words.len() == 0 {
        if !s.ds_audio && s.device_id.len() == 0 {
            Err(RefusalView::NoDevice)
        } else {
            Ok(s)
        }
    } else {
        match with_switch(s, words[0]) {
            Some(t) => vm_settings(words.skip(1), t),
            None => if !is_vm_option(words[0]) {
                Err(cli::refusal_of(words[0]))
            } else if words.len() == 1 {
                Err(RefusalView::Usage)
            } else {
                match with_vm_option(s, words[0], words[1]) {
                    Some(t) => vm_settings(words.skip(2), t),
                    None => Err(RefusalView::BadRenderer),
                }
            },
        }
    }
}

impl VmArgs {
    /// The settings of an empty command line.
    pub fn defaults(default_device: &str) -> (a: Self)
        ensures
            a@ == vm_defaults(default_device@),
    {
        VmArgs {
            device_id: default_device.to_owned(),
            ds_audio: false,
            audio_device: None,
            video_keepalive: false,
            video_device: None,
            video_renderer: Renderer::Null,
            video_passthrough: false,
        }
    }

    /// Turns a switch on; says whether there is such a switch.
    fn switch_on(&mut self, word: &str) -> (is_switch: bool)
        ensures
            match with_switch(old(self)@, word@) {
                Some(t) => is_switch && final(self)@ == t,
                None => !is_switch && final(self)@ == old(self)@,
            },
    {
        if text::same(word, "--ds-audio") {
            self.ds_audio = true;
            true
        } else if text::same(word, "--video-keepalive") {
            self.video_keepalive = true;
            true
        } else if text::same(word, "--video-passthrough") {
            self.video_passthrough = true;
            self.ds_audio = true;
            true
        } else {
            false
        }
    }

    /// Sets an option; says whether its value is good.
    fn set(&mut self, option: &str, value: &String) -> (good: bool)
        requires
            is_vm_option(option@),
        ensures
            match with_vm_option(old(self)@, option@, value@) {
                Some(t) => good && final(self)@ == t,
                None => !good,
            },
    {
        if text::same(option, "--device") {
            self.device_id = value.clone();
            true
        } else if text::same(option, "--audio-device") {
            self.audio_device = Some(value.clone());
            self.ds_audio = true;
            true
        } else if text::same(option, "--video-device") {
            self.video_device = Some(value.clone());
            self.video_keepalive = true;
            true
        } else if text::same(value.as_str(), "null") {
            self.video_renderer = Renderer::Null;
            true
        } else if text::same(value.as_str(), "window") {
            self.video_renderer = Renderer::Window;
            true
        } else {
            false
        }
    }
}

fn names_vm_option(word: &str) -> (yes: bool)
    ensures
        yes == is_vm_option(word@),
{
    text::same(word, "--device") || text::same(word, "--audio-device") || text::same(
        word,
        "--video-device",
    ) || text::same(word, "--video-renderer")
}

/// Parses the guest's command line, without the program's name. `default_device` is
/// the endpoint to capture from unless one is given, and may be empty.
pub fn parse_args(args: &Vec<String>, default_device: &str) -> (r: Result<VmArgs, Refusal>)
    ensures
        match (r, vm_settings(cli::words(args@), vm_defaults(default_device@))) {
            (Ok(a), Ok(s)) => a@ == s,
            (Err(e), Err(v)) => e@ == v,
            _ => false,
        },
{
    let mut a: VmArgs = VmArgs::defaults(default_device);
    let ghost all = cli::words(args@);
    let ghost start = vm_defaults(default_device@);
    let mut i: usize = 0;
    assert(all.skip(0) =~= all);
    while i < args.len()
        invariant
            i <= args@.len(),
            all == cli::words(args@),
            start == vm_defaults(default_device@),
            vm_settings(all, start) == vm_settings(all.skip(i as int), a@),
        decreases args.len() - i,
    {
        let ghost left = all.skip(i as int);
        assert(left[0] == args@[i as int]@);
        let is_switch: bool = a.switch_on(args[i].as_str());
        if is_switch {
            assert(left.skip(1) =~= all.skip(i + 1));
            i = i + 1;
        } else {
            if !names_vm_option(args[i].as_str()) {
                return Err(cli::refuse(&args[i]));
            }
            if args.len() - i == 1 {
                return Err(Refusal::Usage);
            }
            assert(left[1] == args@[i + 1]@);
            let good: bool = a.set(args[i].as_str(), &args[i + 1]);
            if !good {
                return Err(Refusal::BadRenderer);
            }
            assert(left.skip(2) =~= all.skip(i + 2));
            i = i + 2;
        }
    }
    if !a.ds_audio && a.device_id.as_str().unicode_len() == 0 {
        return Err(Refusal::NoDevice);
    }
    Ok(a)
}

/// What the options imply: whoever names an audio device or forwards video captures
/// from a graph, and whoever names a video device keeps it open.
pub open spec fn implications_hold(s: VmSettings) -> bool {
    &&& s.audio_device is Some ==> s.ds_audio
    &&& s.video_passthrough ==> s.ds_audio
    &&& s.video_device is Some ==> s.video_keepalive
}

/// Whatever the command line, the settings that it gives hold what its options
/// imply, and there is something to capture audio from.
pub proof fn options_imply_what_they_need(words: Seq<Seq<char>>, s: VmSettings)
    requires
        implications_hold(s),
    ensures
        vm_settings(words, s) matches Ok(t) ==> implications_hold(t) && (t.ds_audio
            || t.device_id.len() > 0),
    decreases words.len(),
{
    if words.len() > 0 {
        match with_switch(s, words[0]) {
            Some(t) => options_imply_what_they_need(words.skip(1), t),
            None => {
                if words.len() >= 2 && is_vm_option(words[0]) {
                    if let Some(t) = with_vm_option(s, words[0], words[1]) {
                        options_imply_what_they_need(words.skip(2), t);
                    }
                }
            },
        }
    }
}

/// How the guest captures.
#[derive(Clone, Copy, Debug, PartialEq, Eq, Structural)]
pub enum CapturePlan {
    /// From an endpoint, while a video stream is kept open in a graph of its own if
    /// there is a renderer for it.
    Endpoint(Option<Renderer>),
    /// From a graph, with a video stream kept open in it if there is a renderer for
    /// it, and frames forwarded if that is asked for.
    Graph(Option<Renderer>, bool),
}

impl VmArgs {
    /// How to capture: audio and video share one graph where audio comes through a
    /// graph, and video has a graph of its own otherwise.
    pub fn plan(&self) -> (p: CapturePlan)
        ensures
            p == ({
                let kept = if self@.video_keepalive {
                    Some(self@.video_renderer)
                } else {
                    None
                };
                if self@.ds_audio {
                    CapturePlan::Graph(kept, self@.video_passthrough)
                } else {
                    CapturePlan::Endpoint(kept)
                }
            }),
    {
        let kept: Option<Renderer> = if self.video_keepalive {
            Some(self.video_renderer)
        } else {
            None
        };
        if self.ds_audio {
            CapturePlan::Graph(kept, self.video_passthrough)
        } else {
            CapturePlan::Endpoint(kept)
        }
    }
}

/// The switches and options of the guest have different names.
proof fn lemma_vm_names()
    ensures
        with_switch(vm_defaults(Seq::empty()), "--device"@) is None,
        with_switch(vm_defaults(Seq::empty()), "--audio-device"@) is None,
        with_switch(vm_defaults(Seq::empty()), "--video-device"@) is None,
        with_switch(vm_defaults(Seq::empty()), "--video-renderer"@) is None,
        "--ds-audio"@ != "--video-keepalive"@,
        "--ds-audio"@ != "--video-passthrough"@,
        "--video-keepalive"@ != "--video-passthrough"@,
        "--device"@ != "--audio-device"@,
        "--device"@ != "--video-device"@,
        "--device"@ != "--video-renderer"@,
        "--audio-device"@ != "--video-device"@,
        "--audio-device"@ != "--video-renderer"@,
        "--video-device"@ != "--video-renderer"@,
        "null"@ != "window"@,
{
    reveal_strlit("--ds-audio");
    reveal_strlit("--video-keepalive");
    reveal_strlit("--video-passthrough");
    reveal_strlit("--device");
    reveal_strlit("--audio-device");
    reveal_strlit("--video-device");
    reveal_strlit("--video-renderer");
    reveal_strlit("null");
    reveal_strlit("window");
    assert("--ds-audio"@.len() == 10);
    assert("--video-keepalive"@.len() == 17);
    assert("--video-passthrough"@.len() == 19);
    assert("--device"@.len() == 8);
    assert("--audio-device"@.len() == 14);
    assert("--video-device"@.len() == 14);
    assert("--video-renderer"@.len() == 16);
    assert("null"@.len() == 4);
    assert("window"@.len() == 6);
    assert("--audio-device"@[2] == 'a');
    assert("--video-device"@[2] == 'v');
}

/// Each switch turns on what it names and what that needs, and nothing else; what stands
/// behind it is read as if it stood first.
pub proof fn switches_turn_on_what_they_name(rest: Seq<Seq<char>>, s: VmSettings)
    ensures
        vm_settings(seq!["--ds-audio"@] + rest, s) == vm_settings(
            rest,
            VmSettings {
                device_id: s.device_id,
                ds_audio: true,
                audio_device: s.audio_device,
                video_keepalive: s.video_keepalive,
                video_device: s.video_device,
                video_renderer: s.video_renderer,
                video_passthrough: s.video_passthrough,
            },
        ),
        vm_settings(seq!["--video-keepalive"@] + rest, s) == vm_settings(
            rest,
            VmSettings {
                device_id: s.device_id,
                ds_audio: s.ds_audio,
                audio_device: s.audio_device,
                video_keepalive: true,
                video_device: s.video_device,
                video_renderer: s.video_renderer,
                video_passthrough: s.video_passthrough,
            },
        ),
        vm_settings(seq!["--video-passthrough"@] + rest, s) == vm_settings(
            rest,
            VmSettings {
                device_id: s.device_id,
                ds_audio: true,
                audio_device: s.audio_device,
                video_keepalive: s.video_keepalive,
                video_device: s.video_device,
                video_renderer: s.video_renderer,
                video_passthrough: true,
            },
        ),
{
    lemma_vm_names();
    lemma_leading_switch("--ds-audio"@, rest, s);
    lemma_leading_switch("--video-keepalive"@, rest, s);
    lemma_leading_switch("--video-passthrough"@, rest, s);
}

proof fn lemma_leading_switch(word: Seq<char>, rest: Seq<Seq<char>>, s: VmSettings)
    requires
        with_switch(s, word) is Some,
    ensures
        vm_settings(seq![word] + rest, s) == vm_settings(rest, with_switch(s, word).unwrap()),
{
    let all = seq![word] + rest;
    assert(all[0] == word);
    assert(all.skip(1) =~= rest);
}

proof fn lemma_leading_vm_option(
    option: Seq<char>,
    value: Seq<char>,
    rest: Seq<Seq<char>>,
    s: VmSettings,
)
    requires
        is_vm_option(option),
        with_switch(s, option) is None,
    ensures
        vm_settings(seq![option, value] + rest, s) == (match with_vm_option(s, option, value) {
            Some(t) => vm_settings(rest, t),
            None => Err(RefusalView::BadRenderer),
        }),
{
    let all = seq![option, value] + rest;
    assert(all[0] == option);
    assert(all[1] == value);
    assert(all.skip(2) =~= rest);
}

/// Each option sets what it names to its value, whatever the value, and turns on what that
/// needs, and nothing else: an audio device is looked for in a graph, and a video device is
/// kept open. A renderer is one of the two that have a name.
pub proof fn options_set_what_they_name(value: Seq<char>, rest: Seq<Seq<char>>, s: VmSettings)
    ensures
        vm_settings(seq!["--device"@, value] + rest, s) == vm_settings(
            rest,
            VmSettings {
                device_id: value,
                ds_audio: s.ds_audio,
                audio_device: s.audio_device,
                video_keepalive: s.video_keepalive,
                video_device: s.video_device,
                video_renderer: s.video_renderer,
                video_passthrough: s.video_passthrough,
            },
        ),
        vm_settings(seq!["--audio-device"@, value] + rest, s) == vm_settings(
            rest,
            VmSettings {
                device_id: s.device_id,
                ds_audio: true,
                audio_device: Some(value),
                video_keepalive: s.video_keepalive,
                video_device: s.video_device,
                video_renderer: s.video_renderer,
                video_passthrough: s.video_passthrough,
            },
        ),
        vm_settings(seq!["--video-device"@, value] + rest, s) == vm_settings(
            rest,
            VmSettings {
                device_id: s.device_id,
                ds_audio: s.ds_audio,
                audio_device: s.audio_device,
                video_keepalive: true,
                video_device: Some(value),
                video_renderer: s.video_renderer,
                video_passthrough: s.video_passthrough,
            },
        ),
        vm_settings(seq!["--video-renderer"@, value] + rest, s) == (if value == "null"@ || value
            == "window"@ {
            vm_settings(
                rest,
                VmSettings {
                    device_id: s.device_id,
                    ds_audio: s.ds_audio,
                    audio_device: s.audio_device,
                    video_keepalive: s.video_keepalive,
                    video_device: s.video_device,
                    video_renderer: if value == "window"@ {
                        Renderer::Window
                    } else {
                        Renderer::Null
                    },
                    video_passthrough: s.video_passthrough,
                },
            )
        } else {
            Err(RefusalView::BadRenderer)
        }),
{
    lemma_vm_names();
    lemma_leading_vm_option("--device"@, value, rest, s);
    lemma_leading_vm_option("--audio-device"@, value, rest, s);
    lemma_leading_vm_option("--video-device"@, value, rest, s);
    lemma_leading_vm_option("--video-renderer"@, value, rest, s);
}

/// A command line that is read to its end gives its settings, unless there is nothing to
/// capture audio from; an option without its value shows the usage; and a word that is
/// neither a switch nor an option is refused for what it is.
pub proof fn other_vm_command_lines_are_refused(
    word: Seq<char>,
    rest: Seq<Seq<char>>,
    s: VmSettings,
)
    ensures
        ({
            let option = word == "--device"@ || word == "--audio-device"@ || word
                == "--video-device"@ || word == "--video-renderer"@;
            let switch = word == "--ds-audio"@ || word == "--video-keepalive"@ || word
                == "--video-passthrough"@;
            &&& s.ds_audio || s.device_id.len() > 0 ==> vm_settings(Seq::empty(), s) == Ok::<
                VmSettings,
                RefusalView,
            >(s)
            &&& !s.ds_audio && s.device_id.len() == 0 ==> vm_settings(Seq::empty(), s) == Err::<
                VmSettings,
                RefusalView,
            >(RefusalView::NoDevice)
            &&& option ==> vm_settings(seq![word], s) == Err::<VmSettings, RefusalView>(
                RefusalView::Usage,
            )
            &&& !option && !switch ==> vm_settings(seq![word] + rest, s) == Err::<
                VmSettings,
                RefusalView,
            >(
                if word == "-h"@ || word == "--help"@ {
                    RefusalView::Usage
                } else {
                    RefusalView::Unknown(word)
                },
            )
        }),
{
    lemma_vm_names();
    assert(seq![word][0] == word);
    assert((seq![word] + rest)[0] == word);
}

/// The settings that contracts speak of are those in the fields.
pub proof fn vm_settings_are_the_fields(a: VmArgs)
    ensures
        a@.device_id == a.device_id@,
        a@.ds_audio == a.ds_audio,
        a@.audio_device is Some <==> a.audio_device is Some,
        a.audio_device matches Some(s) ==> a@.audio_device == Some(s@),
        a@.video_keepalive == a.video_keepalive,
        a@.video_device is Some <==> a.video_device is Some,
        a.video_device matches Some(s) ==> a@.video_device == Some(s@),
        a@.video_renderer == a.video_renderer,
        a@.video_passthrough == a.video_passthrough,
{
}

} // verus!
