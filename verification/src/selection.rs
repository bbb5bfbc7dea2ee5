//! Selection boundary: what the engine and the waveform are told when the
//! browser selects a file or drops its selection.

use crate::audio::Audio;
use crate::audio::AudioCommand;
use crate::visualization;
use crate::waveform::Envelope;
use crate::waveform::Waveform;
use crate::waveform::WaveformCommand;
use vstd::prelude::*;

verus! {

/// Whether `name` ends with `suffix`.
pub open spec fn ends_with(name: Seq<char>, suffix: Seq<char>) -> bool {
    suffix.len() <= name.len() && name.subrange(name.len() - suffix.len(), name.len() as int) == suffix
}

/// Whether a file of this name is offered for playing: its extension is one
/// of wav, flac, ogg and mp3, written in lower case, and it is not a hidden
/// file, whose name begins with a dot.
pub open spec fn is_displayed(name: Seq<char>) -> bool {
    &&& name.len() > 0
    &&& name[0] != '.'
    &&& (ends_with(name, ".wav"@) || ends_with(name, ".flac"@) || ends_with(name, ".ogg"@) || ends_with(
        name,
        ".mp3"@,
    ))
}

fn has_suffix(name: &str, suffix: &str) -> (found: bool)
    ensures
        found == ends_with(name@, suffix@),
{
    let name_len = name.unicode_len();
    let suffix_len = suffix.unicode_len();
    if suffix_len > name_len {
        return false;
    }
    let start: usize = name_len - suffix_len;
    let mut index: usize = 0;
    while index < suffix_len
        invariant
            index <= suffix_len,
            suffix_len == suffix@.len(),
            name_len == name@.len(),
            start + suffix_len == name_len,
            forall|i: int| 0 <= i < index ==> name@[start + i] == suffix@[i],
        decreases suffix_len - index,
    {
        if name.get_char(start + index) != suffix.get_char(index) {
            assert(name@.subrange(name@.len() - suffix@.len(), name@.len() as int)[index as int] != suffix@[index as int]);
            return false;
        }
        index += 1;
    }
    assert(name@.subrange(name@.len() - suffix@.len(), name@.len() as int) =~= suffix@);
    true
}

/// Decides from the name of a file, its last path component, whether the file
/// is offered for playing.
pub fn display_file(name: &str) -> (displayed: bool)
    ensures
        displayed == is_displayed(name@),
{
    if name.unicode_len() == 0 {
        return false;
    }
    if name.get_char(0) == '.' {
        return false;
    }
    has_suffix(name, ".wav") || has_suffix(name, ".flac") || has_suffix(name, ".ogg") || has_suffix(name, ".mp3")
}

/// A selected entry of the browser.
pub struct Selected {
    pub path: String,
    /// Last component of `path`.
    pub name: String,
    /// Whether `path` names a regular file.
    pub is_file: bool,
}

/// What a change of selection sends out.
pub struct Orders<T> {
    /// For the engine.
    pub audio: Option<AudioCommand<T>>,
    /// For the waveform loader, in order.
    pub waveform: Vec<WaveformCommand>,
    /// For the analyzers.
    pub visualization: Option<visualization::Message<T>>,
}

/// Whether the selection is a file to play and show.
pub open spec fn is_playable(selection: Option<Selected>) -> bool {
    selection matches Some(entry) && (entry.is_file && is_displayed(entry.name@))
}

/// A playable file is played and shown, and the analyzers are told that the
/// selection changed. Anything else, no selection included, stops playback
/// and clears the waveform.
pub fn select_file<T: Copy>(audio: &Audio, waveform: &mut Waveform<T>, selection: Option<Selected>) -> (orders:
    Orders<T>)
    requires
        old(waveform)@.generation < usize::MAX,
    ensures
        if is_playable(selection) {
            let path = selection.unwrap().path;
            &&& orders.audio == if audio.connected() {
                Some(AudioCommand::<T>::Play(path))
            } else {
                None
            }
            &&& final(waveform)@ == old(waveform)@.select()
            &&& if old(waveform)@.connected {
                &&& orders.waveform@.len() == 2
                &&& orders.waveform@[0] == WaveformCommand::StopLoading
                &&& orders.waveform@[1] == (WaveformCommand::LoadFile {
                    path,
                    generation: final(waveform)@.generation,
                })
            } else {
                orders.waveform@.len() == 0
            }
            &&& orders.visualization == Some(visualization::Message::<T>::SampleSelectionChanged)
        } else {
            &&& orders.audio == if audio.connected() {
                Some(AudioCommand::<T>::Stop)
            } else {
                None
            }
            &&& final(waveform)@ == (Envelope { samples: Seq::empty(), ..old(waveform)@.select() })
            &&& if old(waveform)@.connected {
                &&& orders.waveform@.len() == 1
                &&& orders.waveform@[0] == WaveformCommand::StopLoading
            } else {
                orders.waveform@.len() == 0
            }
            &&& orders.visualization.is_none()
        },
{
    match selection {
        Some(entry) => {
            if entry.is_file && display_file(entry.name.as_str()) {
                let command = audio.play(entry.path.clone());
                let loading = waveform.show(entry.path);
                return Orders {
                    audio: command,
                    waveform: loading,
                    visualization: Some(visualization::Message::SampleSelectionChanged),
                };
            }
        },
        None => {},
    }
    let command = audio.stop();
    let loading = waveform.clear();
    Orders { audio: command, waveform: loading, visualization: None }
}

} // verus!
