//! The host's command line.

use crate::cli;
use crate::cli::{Refusal, RefusalView};
use crate::text;
use vstd::prelude::*;

verus! {

/// Default latency budget in milliseconds.
pub const DEFAULT_LATENCY_MS: u32 = 20;

/// Default playback quantum in frames.
pub const DEFAULT_QUANTUM: u32 = 256;

/// Default pause before a fresh frame is read, in microseconds.
pub const DEFAULT_READ_DELAY_US: u64 = 500;

/// Default size of the pipe buffer in bytes.
pub const DEFAULT_PIPE_SIZE: usize = 4 * 1024 * 1024;

/// What the host was asked to do.
pub struct HostArgs {
    /// The file to map.
    pub shm_path: String,
    /// How much audio may be buffered before the oldest is dropped.
    pub latency_ms: u32,
    /// Playback quantum in frames.
    pub quantum: u32,
    /// The pipe to forward video frames to, if video is wanted.
    pub video_fifo: Option<String>,
    /// How long to wait before a fresh frame is read.
    pub video_read_delay_us: u64,
    /// The size of the pipe buffer to ask for.
    pub video_pipe_size: usize,
}

/// [`HostArgs`] as contracts speak of them.
#[verifier::ext_equal]
pub struct HostSettings {
    pub shm_path: Seq<char>,
    pub latency_ms: u32,
    pub quantum: u32,
    pub video_fifo: Option<Seq<char>>,
    pub video_read_delay_us: u64,
    pub video_pipe_size: usize,
}

impl View for HostArgs {
    type V = HostSettings;

    open spec fn view(&self) -> HostSettings {
        HostSettings {
            shm_path: self.shm_path@,
            latency_ms: self.latency_ms,
            quantum: self.quantum,
            video_fifo: match self.video_fifo {
                Some(s) => Some(s@),
                None => None,
            },
            video_read_delay_us: self.video_read_delay_us,
            video_pipe_size: self.video_pipe_size,
        }
    }
}

/// The settings of an empty command line.
pub open spec fn host_defaults() -> HostSettings {
    HostSettings {
        shm_path: "/dev/shm/lalah"@,
        latency_ms: DEFAULT_LATENCY_MS,
        quantum: DEFAULT_QUANTUM,
        video_fifo: None,
        video_read_delay_us: DEFAULT_READ_DELAY_US,
        video_pipe_size: DEFAULT_PIPE_SIZE,
    }
}

/// Whether a word is an option of the host. Each of them takes a value.
pub open spec fn is_host_option(word: Seq<char>) -> bool {
    ||| word == "--shm"@
    ||| word == "--latency-ms"@
    ||| word == "--quantum"@
    ||| word == "--video-fifo"@
    ||| word == "--video-read-delay-us"@
    ||| word == "--video-pipe-size"@
}

/// The settings with an option set to a value; none if the value is no good.
pub open spec fn with_option(s: HostSettings, option: Seq<char>, value: Seq<char>) -> Option<
    HostSettings,
> {
    if option == "--shm"@ {
        Some(HostSettings { shm_path: value, ..s })
    } else if option == "--video-fifo"@ {
        Some(HostSettings { video_fifo: Some(value), ..s })
    } else if option == "--latency-ms"@ {
        match cli::number_up_to(value, u32::MAX as int) {
            Some(v) => Some(HostSettings { latency_ms: v as u32, ..s }),
            None => None,
        }
    } else if option == "--quantum"@ {
        match cli::number_up_to(value, u32::MAX as int) {
            Some(v) if v > 0 => Some(HostSettings { quantum: v as u32, ..s }),
            _ => None,
        }
    } else if option == "--video-read-delay-us"@ {
        match cli::number_up_to(value, u64::MAX as int) {
            Some(v) => Some(HostSettings { video_read_delay_us: v as u64, ..s }),
            None => None,
        }
    } else {
        match cli::number_up_to(value, usize::MAX as int) {
            Some(v) => Some(HostSettings { video_pipe_size: v as usize, ..s }),
            None => None,
        }
    }
}

/// The settings that a command line gives, starting from `s`: its options in order,
/// a later one over an earlier one.
pub open spec fn host_settings(words: Seq<Seq<char>>, s: HostSettings) -> Result<
    HostSettings,
    RefusalView,
>
    decreases words.len(),
{
    if words.len() == 0 {
        Ok(s)
    } else if !is_host_option(words[0]) {
        Err(cli::refusal_of(words[0]))
    } else if words.len() == 1 {
        Err(RefusalView::Usage)
    } else {
        match with_option(s, words[0], words[1]) {
            Some(t) => host_settings(words.skip(2), t),
            None => Err(RefusalView::Usage),
        }
    }
}

impl HostArgs {
    /// The settings of an empty command line.
    pub fn defaults() -> (a: Self)
        ensures
            a@ == host_defaults(),
    {
        HostArgs {
            shm_path: "/dev/shm/lalah".to_owned(),
            latency_ms: DEFAULT_LATENCY_MS,
            quantum: DEFAULT_QUANTUM,
            video_fifo: None,
            video_read_delay_us: DEFAULT_READ_DELAY_US,
            video_pipe_size: DEFAULT_PIPE_SIZE,
        }
    }

    /// Sets an option; says whether its value is good.
    fn set(&mut self, option: &str, value: &String) -> (good: bool)
        requires
            is_host_option(option@),
        ensures
            match with_option(old(self)@, option@, value@) {
                Some(t) => good && final(self)@ == t,
                None => !good,
            },
    {
        if text::same(option, "--shm") {
            self.shm_path = value.clone();
            true
        } else if text::same(option, "--video-fifo") {
            self.video_fifo = Some(value.clone());
            true
        } else if text::same(option, "--latency-ms") {
            match text::parse_number(value.as_str(), u32::MAX as u64) {
                Some(v) => {
                    self.latency_ms = v as u32;
                    true
                },
                None => false,
            }
        } else if text::same(option, "--quantum") {
            match text::parse_number(value.as_str(), u32::MAX as u64) {
                Some(v) => {
                    if v == 0 {
                        return false;
                    }
                    self.quantum = v as u32;
                    true
                },
                None => false,
            }
        } else if text::same(option, "--video-read-delay-us") {
            match text::parse_number(value.as_str(), u64::MAX) {
                Some(v) => {
                    self.video_read_delay_us = v;
                    true
                },
                None => false,
            }
        } else {
            match text::parse_number(value.as_str(), usize::MAX as u64) {
                Some(v) => {
                    self.video_pipe_size = v as usize;
                    true
                },
                None => false,
            }
        }
    }
}

fn names_host_option(word: &str) -> (yes: bool)
    ensures
        yes == is_host_option(word@),
{
    text::same(word, "--shm") || text::same(word, "--latency-ms") || text::same(word, "--quantum")
        || text::same(word, "--video-fifo") || text::same(word, "--video-read-delay-us")
        || text::same(word, "--video-pipe-size")
}

/// Parses the host's command line, without the program's name.
pub fn parse_args(args: &Vec<String>) -> (r: Result<HostArgs, Refusal>)
    ensures
        match (r, host_settings(cli::words(args@), host_defaults())) {
            (Ok(a), Ok(s)) => a@ == s,
            (Err(e), Err(v)) => e@ == v,
            _ => false,
        },
{
    let mut a: HostArgs = HostArgs::defaults();
    let ghost all = cli::words(args@);
    let mut i: usize = 0;
    assert(all.skip(0) =~= all);
    while i < args.len()
        invariant
            i <= args@.len(),
            all == cli::words(args@),
            host_settings(all, host_defaults()) == host_settings(all.skip(i as int), a@),
        decreases args.len() - i,
    {
        let ghost left = all.skip(i as int);
        assert(left[0] == args@[i as int]@);
        if !names_host_option(args[i].as_str()) {
            return Err(cli::refuse(&args[i]));
        }
        if args.len() - i == 1 {
            return Err(Refusal::Usage);
        }
        assert(left[1] == args@[i + 1]@);
        let good: bool = a.set(args[i].as_str(), &args[i + 1]);
        if !good {
            return Err(Refusal::Usage);
        }
        assert(left.skip(2) =~= all.skip(i + 2));
        i = i + 2;
    }
    Ok(a)
}

/// The quantum is never 0, whatever the command line.
pub proof fn quantum_is_positive(words: Seq<Seq<char>>, s: HostSettings)
    requires
        s.quantum > 0,
    ensures
        host_settings(words, s) matches Ok(t) ==> t.quantum > 0,
    decreases words.len(),
{
    if words.len() >= 2 && is_host_option(words[0]) {
        if let Some(t) = with_option(s, words[0], words[1]) {
            quantum_is_positive(words.skip(2), t);
        }
    }
}

/// Of an option that is given more than once the last value counts: what stands
/// behind a complete command line is applied to the settings that it gave.
pub proof fn later_options_win(first: Seq<Seq<char>>, second: Seq<Seq<char>>, s: HostSettings)
    requires
        host_settings(first, s) is Ok,
    ensures
        host_settings(first + second, s) == host_settings(second, host_settings(first, s)->Ok_0),
    decreases first.len(),
{
    if first.len() == 0 {
        assert(first + second =~= second);
    } else {
        assert((first + second)[0] == first[0]);
        assert((first + second)[1] == first[1]);
        let t = with_option(s, first[0], first[1]).unwrap();
        later_options_win(first.skip(2), second, t);
        assert((first + second).skip(2) =~= first.skip(2) + second);
    }
}

/// The options of the host have different names.
proof fn lemma_host_names()
    ensures
        "--shm"@ != "--latency-ms"@,
        "--shm"@ != "--quantum"@,
        "--shm"@ != "--video-fifo"@,
        "--shm"@ != "--video-read-delay-us"@,
        "--shm"@ != "--video-pipe-size"@,
        "--latency-ms"@ != "--quantum"@,
        "--latency-ms"@ != "--video-fifo"@,
        "--latency-ms"@ != "--video-read-delay-us"@,
        "--latency-ms"@ != "--video-pipe-size"@,
        "--quantum"@ != "--video-fifo"@,
        "--quantum"@ != "--video-read-delay-us"@,
        "--quantum"@ != "--video-pipe-size"@,
        "--video-fifo"@ != "--video-read-delay-us"@,
        "--video-fifo"@ != "--video-pipe-size"@,
        "--video-read-delay-us"@ != "--video-pipe-size"@,
{
    reveal_strlit("--shm");
    reveal_strlit("--latency-ms");
    reveal_strlit("--quantum");
    reveal_strlit("--video-fifo");
    reveal_strlit("--video-read-delay-us");
    reveal_strlit("--video-pipe-size");
    assert("--shm"@.len() == 5);
    assert("--latency-ms"@.len() == 12);
    assert("--quantum"@.len() == 9);
    assert("--video-fifo"@.len() == 12);
    assert("--video-read-delay-us"@.len() == 21);
    assert("--video-pipe-size"@.len() == 17);
    assert("--latency-ms"@[2] == 'l');
    assert("--video-fifo"@[2] == 'v');
}

/// Each option that takes a text sets its own setting to that text, whatever the text,
/// and no other setting; what stands behind it is read as if it stood first.
pub proof fn text_options_set_what_they_name(
    value: Seq<char>,
    rest: Seq<Seq<char>>,
    s: HostSettings,
)
    ensures
        host_settings(seq!["--shm"@, value] + rest, s) == host_settings(
            rest,
            HostSettings {
                shm_path: value,
                latency_ms: s.latency_ms,
                quantum: s.quantum,
                video_fifo: s.video_fifo,
                video_read_delay_us: s.video_read_delay_us,
                video_pipe_size: s.video_pipe_size,
            },
        ),
        host_settings(seq!["--video-fifo"@, value] + rest, s) == host_settings(
            rest,
            HostSettings {
                shm_path: s.shm_path,
                latency_ms: s.latency_ms,
                quantum: s.quantum,
                video_fifo: Some(value),
                video_read_delay_us: s.video_read_delay_us,
                video_pipe_size: s.video_pipe_size,
            },
        ),
{
    lemma_host_names();
    lemma_leading_option("--shm"@, value, rest, s);
    lemma_leading_option("--video-fifo"@, value, rest, s);
}

proof fn lemma_leading_option(
    option: Seq<char>,
    value: Seq<char>,
    rest: Seq<Seq<char>>,
    s: HostSettings,
)
    requires
        is_host_option(option),
    ensures
        host_settings(seq![option, value] + rest, s) == (match with_option(s, option, value) {
            Some(t) => host_settings(rest, t),
            None => Err(RefusalView::Usage),
        }),
{
    let all = seq![option, value] + rest;
    assert(all[0] == option);
    assert(all[1] == value);
    assert(all.skip(2) =~= rest);
}

/// Each option that takes a number sets its own setting to that number and no other
/// setting, whatever the number, if it fits; a quantum of 0, a number that does not fit
/// and a text that is no number are refused.
pub proof fn number_options_set_what_they_name(
    value: Seq<char>,
    v: nat,
    rest: Seq<Seq<char>>,
    s: HostSettings,
)
    requires
        text::number(value) == Some(v),
    ensures
        host_settings(seq!["--latency-ms"@, value] + rest, s) == (if v <= u32::MAX {
            host_settings(
                rest,
                HostSettings {
                    shm_path: s.shm_path,
                    latency_ms: v as u32,
                    quantum: s.quantum,
                    video_fifo: s.video_fifo,
                    video_read_delay_us: s.video_read_delay_us,
                    video_pipe_size: s.video_pipe_size,
                },
            )
        } else {
            Err(RefusalView::Usage)
        }),
        host_settings(seq!["--quantum"@, value] + rest, s) == (if 0 < v <= u32::MAX {
            host_settings(
                rest,
                HostSettings {
                    shm_path: s.shm_path,
                    latency_ms: s.latency_ms,
                    quantum: v as u32,
                    video_fifo: s.video_fifo,
                    video_read_delay_us: s.video_read_delay_us,
                    video_pipe_size: s.video_pipe_size,
                },
            )
        } else {
            Err(RefusalView::Usage)
        }),
        host_settings(seq!["--video-read-delay-us"@, value] + rest, s) == (if v <= u64::MAX {
            host_settings(
                rest,
                HostSettings {
                    shm_path: s.shm_path,
                    latency_ms: s.latency_ms,
                    quantum: s.quantum,
                    video_fifo: s.video_fifo,
                    video_read_delay_us: v as u64,
                    video_pipe_size: s.video_pipe_size,
                },
            )
        } else {
            Err(RefusalView::Usage)
        }),
        host_settings(seq!["--video-pipe-size"@, value] + rest, s) == (if v <= usize::MAX {
            host_settings(
                rest,
                HostSettings {
                    shm_path: s.shm_path,
                    latency_ms: s.latency_ms,
                    quantum: s.quantum,
                    video_fifo: s.video_fifo,
                    video_read_delay_us: s.video_read_delay_us,
                    video_pipe_size: v as usize,
                },
            )
        } else {
            Err(RefusalView::Usage)
        }),
{
    lemma_host_names();
    lemma_leading_option("--latency-ms"@, value, rest, s);
    lemma_leading_option("--quantum"@, value, rest, s);
    lemma_leading_option("--video-read-delay-us"@, value, rest, s);
    lemma_leading_option("--video-pipe-size"@, value, rest, s);
}

/// Nothing changes nothing; a number option with a text that is no number, and any option
/// without its value, shows the usage; and a word that is no option is refused for what
/// it is.
pub proof fn other_command_lines_are_refused(
    option: Seq<char>,
    value: Seq<char>,
    rest: Seq<Seq<char>>,
    s: HostSettings,
)
    ensures
        ({
            let takes_text = option == "--shm"@ || option == "--video-fifo"@;
            let takes_number = option == "--latency-ms"@ || option == "--quantum"@ || option
                == "--video-read-delay-us"@ || option == "--video-pipe-size"@;
            &&& host_settings(Seq::empty(), s) == Ok::<HostSettings, RefusalView>(s)
            &&& takes_number && text::number(value) is None ==> host_settings(
                seq![option, value] + rest,
                s,
            ) == Err::<HostSettings, RefusalView>(RefusalView::Usage)
            &&& takes_text || takes_number ==> host_settings(seq![option], s) == Err::<
                HostSettings,
                RefusalView,
            >(RefusalView::Usage)
            &&& !takes_text && !takes_number ==> host_settings(seq![option] + rest, s) == Err::<
                HostSettings,
                RefusalView,
            >(
                if option == "-h"@ || option == "--help"@ {
                    RefusalView::Usage
                } else {
                    RefusalView::Unknown(option)
                },
            )
        }),
{
    lemma_host_names();
    if is_host_option(option) {
        lemma_leading_option(option, value, rest, s);
        assert(seq![option][0] == option);
    } else {
        assert((seq![option] + rest)[0] == option);
    }
}

/// The settings that contracts speak of are those in the fields.
pub proof fn settings_are_the_fields(a: HostArgs)
    ensures
        a@.shm_path == a.shm_path@,
        a@.latency_ms == a.latency_ms,
        a@.quantum == a.quantum,
        a@.video_fifo is Some <==> a.video_fifo is Some,
        a.video_fifo matches Some(s) ==> a@.video_fifo == Some(s@),
        a@.video_read_delay_us == a.video_read_delay_us,
        a@.video_pipe_size == a.video_pipe_size,
{
}

} // verus!
