//! The resources that come with the application.

use crate::text::same_text;
use vstd::prelude::*;

verus! {

/// The melodies that come with the application.
#[derive(Debug, Clone, Copy, PartialEq, Eq, Structural)]
pub enum BuiltinSound {
    SoftChime,
    BrightBells,
    GentleAlert,
}

/// The pictures that come with the application.
#[derive(Debug, Clone, Copy, PartialEq, Eq, Structural)]
pub enum BuiltinPicture {
    Blocked,
}

/// The melody of a name.
pub open spec fn sound_of(name: Seq<char>) -> Option<BuiltinSound> {
    if name == "builtin:soft-chime"@ {
        Some(BuiltinSound::SoftChime)
    } else if name == "builtin:bright-bells"@ {
        Some(BuiltinSound::BrightBells)
    } else if name == "builtin:gentle-alert"@ {
        Some(BuiltinSound::GentleAlert)
    } else {
        None
    }
}

/// The melody that a source of an audio action names, where it names a built-in one.
pub fn builtin_audio(name: &str) -> (r: Option<BuiltinSound>)
    ensures
        r == sound_of(name@),
{
    if same_text(name, "builtin:soft-chime") {
        Some(BuiltinSound::SoftChime)
    } else if same_text(name, "builtin:bright-bells") {
        Some(BuiltinSound::BrightBells)
    } else if same_text(name, "builtin:gentle-alert") {
        Some(BuiltinSound::GentleAlert)
    } else {
        None
    }
}

/// The table of the embedded pictures.
pub struct EmbeddedAssets;

impl EmbeddedAssets {
    /// The picture under a path.
    pub fn load(&self, path: &str) -> (r: Option<BuiltinPicture>)
        ensures
            r == (if path@ == "blocked.svg"@ {
                Some(BuiltinPicture::Blocked)
            } else {
                None
            }),
    {
        if same_text(path, "blocked.svg") {
            Some(BuiltinPicture::Blocked)
        } else {
            None
        }
    }

    /// The paths of the pictures in a directory; they all stand in the root.
    pub fn list(&self, path: &str) -> (r: Vec<String>)
        ensures
            crate::config::texts(r@) == (if path@.len() == 0 {
                seq!["blocked.svg"@]
            } else {
                Seq::empty()
            }),
    {
        let mut out: Vec<String> = Vec::new();
        if same_text(path, "") {
            out.push("blocked.svg".to_owned());
        }
        proof {
            reveal_strlit("");
            assert(path@.len() == 0 ==> path@ =~= ""@);
        }
        assert(crate::config::texts(out@) =~= (if path@.len() == 0 {
            seq!["blocked.svg"@]
        } else {
            Seq::empty()
        }));
        out
    }
}

/// No two names stand for the same melody.
pub proof fn law_sounds_have_distinct_names(a: Seq<char>, b: Seq<char>)
    requires
        sound_of(a) is Some,
        sound_of(a) == sound_of(b),
    ensures
        a == b,
{
}

} // verus!
