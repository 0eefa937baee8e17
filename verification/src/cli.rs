//! What the two command lines have in common.

use crate::text;
use vstd::prelude::*;

verus! {

/// Why a command line is refused.
pub enum Refusal {
    /// It asks for help, or an option lacks its value or has one that is no good.
    Usage,
    /// There is no such option.
    Unknown(String),
    /// The renderer is neither of the two.
    BadRenderer,
    /// There is no device to capture from.
    NoDevice,
}

/// A [`Refusal`] as contracts speak of it.
pub enum RefusalView {
    Usage,
    Unknown(Seq<char>),
    BadRenderer,
    NoDevice,
}

impl View for Refusal {
    type V = RefusalView;

    open spec fn view(&self) -> RefusalView {
        match *self {
            Refusal::Usage => RefusalView::Usage,
            Refusal::Unknown(s) => RefusalView::Unknown(s@),
            Refusal::BadRenderer => RefusalView::BadRenderer,
            Refusal::NoDevice => RefusalView::NoDevice,
        }
    }
}

impl Refusal {
    /// What to tell the user, besides how the command is used.
    pub fn message(&self) -> (r: Option<String>)
        ensures
            match (r, self@) {
                (None, RefusalView::Usage) => true,
                (Some(m), RefusalView::Unknown(s)) => m@ == "unknown argument: "@ + s,
                (Some(m), RefusalView::BadRenderer) => m@
                    == "error: --video-renderer must be 'null' or 'window'"@,
                (Some(m), RefusalView::NoDevice) => m@
                    == "error: no capture device id (pass --device, --ds-audio, or set DEFAULT_DEVICE_ID)"@,
                _ => false,
            },
    {
        match self {
            Refusal::Usage => None,
            Refusal::Unknown(s) => {
                let mut m: String = "unknown argument: ".to_owned();
                m.append(s.as_str());
                Some(m)
            },
            Refusal::BadRenderer => Some(
                "error: --video-renderer must be 'null' or 'window'".to_owned(),
            ),
            Refusal::NoDevice => Some(
                "error: no capture device id (pass --device, --ds-audio, or set DEFAULT_DEVICE_ID)".to_owned(),
            ),
        }
    }
}

/// The arguments as contracts speak of them.
pub open spec fn words(args: Seq<String>) -> Seq<Seq<char>> {
    args.map_values(|s: String| s@)
}

/// Whether an argument asks for help.
pub open spec fn asks_help(word: Seq<char>) -> bool {
    word == "-h"@ || word == "--help"@
}

/// The number that a word stands for, if it is a number up to `most`.
pub open spec fn number_up_to(word: Seq<char>, most: int) -> Option<nat> {
    match text::number(word) {
        Some(v) if v <= most => Some(v),
        _ => None,
    }
}

/// Why a word that is no option is refused.
pub open spec fn refusal_of(word: Seq<char>) -> RefusalView {
    if asks_help(word) {
        RefusalView::Usage
    } else {
        RefusalView::Unknown(word)
    }
}

/// Refuses a word that is no option.
pub fn refuse(word: &String) -> (r: Refusal)
    ensures
        r@ == refusal_of(word@),
{
    if text::same(word.as_str(), "-h") || text::same(word.as_str(), "--help") {
        Refusal::Usage
    } else {
        Refusal::Unknown(word.clone())
    }
}

/// The words of a command line are its arguments, one for one.
pub proof fn words_are_the_arguments(args: Seq<String>)
    ensures
        words(args).len() == args.len(),
        forall|i: int| 0 <= i < args.len() ==> #[trigger] words(args)[i] == args[i]@,
{
}

/// A number is taken exactly if it is one and not too large, and as what it is: every
/// number up to the limit that is written in decimal is taken.
pub proof fn numbers_are_taken_up_to_the_limit(word: Seq<char>, most: int, n: nat)
    ensures
        number_up_to(word, most) matches Some(v) ==> text::number(word) == Some(v) && v <= most,
        number_up_to(word, most) is None ==> (text::number(word) matches Some(v) ==> v > most),
        n <= most ==> number_up_to(text::decimal(n), most) == Some(n),
        n > most ==> number_up_to(text::decimal(n), most) is None,
{
    text::decimal_reads_back(n);
}

/// Asking for help shows the usage and nothing else; any other word that is no option is
/// named.
pub proof fn strange_words_are_named(word: Seq<char>)
    ensures
        word == "-h"@ || word == "--help"@ ==> refusal_of(word) == RefusalView::Usage,
        word != "-h"@ && word != "--help"@ ==> refusal_of(word) == RefusalView::Unknown(word),
{
}

} // verus!
