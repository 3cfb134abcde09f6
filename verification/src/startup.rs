//! What the window opens on.

use crate::demo::Band;
use vstd::prelude::*;

verus! {

/// What was asked for on the command line.
#[derive(Clone, Copy, Debug, PartialEq, Eq, Structural)]
pub struct Asked {
    pub live: bool,
    pub file: bool,
    pub demo: bool,
    pub weak: bool,
    pub crowded: bool,
    pub signals: bool,
}

/// What is listened to.
#[derive(Clone, Copy, Debug, PartialEq, Eq, Structural)]
pub enum Source {
    /// The sound card.
    Live,
    /// A synthetic band.
    Synthetic(Band),
    /// The file that was named.
    File,
}

impl Asked {
    /// Which synthetic band was asked for, if any.
    pub open spec fn wanted_band(self) -> Option<Band> {
        if self.demo {
            Some(Band::Demo)
        } else if self.weak {
            Some(Band::Weak)
        } else if self.crowded {
            Some(Band::Crowded)
        } else if self.signals {
            Some(Band::Signals)
        } else {
            None
        }
    }

    /// What is listened to. With nothing on the command line, a monitor should
    /// be monitoring; a synthetic band or a file wins over that, and asking for
    /// the sound card over both.
    pub fn source(&self) -> (s: Source)
        ensures
            s == if self.live || (!self.file && self.wanted_band() is None) {
                Source::Live
            } else {
                match self.wanted_band() {
                    Some(b) => Source::Synthetic(b),
                    None => Source::File,
                }
            },
    {
        if self.live {
            Source::Live
        } else if self.demo {
            Source::Synthetic(Band::Demo)
        } else if self.weak {
            Source::Synthetic(Band::Weak)
        } else if self.crowded {
            Source::Synthetic(Band::Crowded)
        } else if self.signals {
            Source::Synthetic(Band::Signals)
        } else if self.file {
            Source::File
        } else {
            Source::Live
        }
    }
}

/// What the window is called.
pub fn title(source: Source) -> (s: String)
    ensures
        s@ == match source {
            Source::Live => "ragchew — live"@,
            Source::Synthetic(b) => "ragchew — "@ + b.source_words(),
            Source::File => "ragchew"@,
        },
{
    match source {
        Source::Live => "ragchew — live".to_owned(),
        Source::Synthetic(b) => {
            let mut s = "ragchew — ".to_owned();
            s.append(b.source_name());
            s
        },
        Source::File => "ragchew".to_owned(),
    }
}

/// The band that was asked for is the band that is made, and where none was there is
/// none.
pub proof fn the_band_asked_for_is_made(a: Asked)
    ensures
        a.wanted_band() is None <==> !a.demo && !a.weak && !a.crowded && !a.signals,
        a.wanted_band() == Some(Band::Demo) ==> a.demo,
        a.wanted_band() == Some(Band::Weak) ==> a.weak && !a.demo,
        a.wanted_band() == Some(Band::Crowded) ==> a.crowded && !a.weak && !a.demo,
        a.wanted_band() == Some(Band::Signals) ==> a.signals && !a.crowded && !a.weak && !a.demo,
{
}

} // verus!
