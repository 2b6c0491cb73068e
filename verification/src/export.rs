//! What an export writes beside the clip: the subtitles and the chapters,
//! clipped to the exported span, each only when there is something to write.

use vstd::prelude::*;
use crate::chapter::{clip_of, Chapters};
use crate::paths::{with_extension, with_extension_of};
use crate::vtt::{clip_parts, cue_parts, lemma_parts_count, VttDoc};

verus! {

/// The files to write beside a clip.
pub struct Companions {
    /// `<clip>.vtt` and the subtitles for it.
    pub vtt: Option<(String, VttDoc)>,
    /// `<clip>.chapter.txt` and the chapters for it.
    pub chapters: Option<(String, Chapters)>,
}

/// The files to write beside the clip `output` of `[start, end)` ms: the
/// subtitles `vtt` clipped to the span, when any cue falls in it, and the
/// chapters clipped to it, when there are any. Edits not yet saved are
/// included.
pub fn companions(vtt: &Option<VttDoc>, chapters: &Chapters, output: &str, start: u64, end: u64) -> (r:
    Companions)
    ensures
        match r.vtt {
            Some((p, d)) => {
                &&& p@ == with_extension(output@, "vtt"@)
                &&& vtt matches Some(src) && cue_parts(d@) == clip_parts(cue_parts(src@), start as int, end as int)
                &&& cue_parts(d@).len() > 0
            },
            None => match vtt {
                Some(src) => clip_parts(cue_parts(src@), start as int, end as int).len() == 0,
                None => true,
            },
        },
        match r.chapters {
            Some((p, c)) => {
                &&& p@ == with_extension(output@, "chapter.txt"@)
                &&& c@ == clip_of(chapters@, start as int, end as int)
                &&& c@.len() > 0
            },
            None => clip_of(chapters@, start as int, end as int).len() == 0,
        },
{
    let subs = match vtt {
        Some(doc) => {
            let clip = doc.cut(start, end);
            proof {
                lemma_parts_count(clip@);
            }
            if clip.cue_count() > 0 {
                Some((with_extension_of(output, "vtt"), clip))
            } else {
                None
            }
        },
        None => None,
    };
    let clip = chapters.cut(start, end);
    let chs = if clip.is_empty() {
        None
    } else {
        Some((with_extension_of(output, "chapter.txt"), clip))
    };
    Companions { vtt: subs, chapters: chs }
}

} // verus!
