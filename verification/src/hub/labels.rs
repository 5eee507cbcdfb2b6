//! What the hub writes on its controls and in its status lines.
use vstd::prelude::*;

use crate::export::given_name;
use crate::midi::bar_beat_at;
use crate::midi::bar_beat_in;
use crate::midi::bar_fits;
use crate::midi::GridState;
use crate::navigator::model::SectionKind;
use crate::recording::armed_sources;
use crate::recording::ControlView;
use crate::recording::RecorderControl;
use crate::text::blank;
use crate::text::decimal;
use crate::text::decimal_text;
use crate::text::is_blank;
use crate::text::join;
use crate::text::trim;
use crate::text::trimmed;

verus! {

/// The status of the recorder: where it records to, or how many sources are
/// armed, with what went wrong last.
pub open spec fn record_line(r: ControlView) -> Seq<char> {
    if r.recording {
        match r.last_session {
            Some(p) => "\u{25CF} REC \u{2192} "@ + p,
            None => "\u{25CF} REC"@,
        }
    } else {
        let n = "armed: "@ + decimal_text(armed_sources(r.state.armed).len());
        match r.error {
            Some(e) => n + " \u{2014} "@ + e,
            None => n,
        }
    }
}

/// The status of the recorder.
pub fn rec_status(recorder: &Option<RecorderControl>) -> (r: String)
    ensures
        match recorder {
            Some(c) => r@ == record_line(c@),
            None => r@ == "no engine"@,
        },
{
    match recorder {
        Some(c) => {
            if c.recording {
                match &c.last_session {
                    Some(p) => join("\u{25CF} REC \u{2192} ", p.as_str()),
                    None => "\u{25CF} REC".to_owned(),
                }
            } else {
                let mut s = join("armed: ", decimal(c.state.armed_count() as u128).as_str());
                match &c.error {
                    Some(e) => {
                        s.append(" \u{2014} ");
                        s.append(e.as_str());
                    },
                    None => {},
                }
                s
            }
        },
        None => "no engine".to_owned(),
    }
}

/// The status after an export to `dir`.
pub open spec fn exported_line(dir: Seq<char>) -> Seq<char> {
    "\u{2192} "@ + dir
}

/// The status after an export that went wrong.
pub open spec fn not_exported_line(error: Seq<char>) -> Seq<char> {
    "export error: "@ + error
}

/// The status of the last export: where it went, or what went wrong.
pub fn export_status(dir: &Option<String>, error: &Option<String>) -> (r: String)
    ensures
        match dir {
            Some(p) => r@ == exported_line(p@),
            None => match error {
                Some(e) => r@ == not_exported_line(e@),
                None => r@ == Seq::<char>::empty(),
            },
        },
{
    match dir {
        Some(p) => join("\u{2192} ", p.as_str()),
        None => match error {
            Some(e) => join("export error: ", e.as_str()),
            None => String::new(),
        },
    }
}

/// The label of a source: the name given to it, or its number.
pub open spec fn source_text(layer_names: Seq<String>, s: int) -> Seq<char> {
    let name = given_name(layer_names, s);
    if name.len() > 0 {
        name
    } else {
        "Src "@ + decimal_text((s + 1) as nat)
    }
}

/// The label of a source.
pub fn source_label(layer_names: &Vec<String>, s: usize) -> (r: String)
    ensures
        r@ == source_text(layer_names@, s as int),
{
    if s < layer_names.len() {
        let name = trim(layer_names[s].as_str());
        if name.as_str().unicode_len() > 0 {
            return name;
        }
    }
    join("Src ", decimal(s as u128 + 1).as_str())
}

/// The label of a section's tab.
pub open spec fn tab_text(kind: SectionKind, recorded: bool) -> Seq<char> {
    if recorded {
        "\u{25CF} "@ + kind.label_text()
    } else {
        kind.label_text()
    }
}

/// The label of a section's tab: marked where it has a take.
pub fn section_tab(kind: SectionKind, recorded: bool) -> (r: String)
    ensures
        r@ == tab_text(kind, recorded),
{
    if recorded {
        join("\u{25CF} ", kind.label())
    } else {
        kind.label().to_owned()
    }
}

/// The loop window, in frames.
pub open spec fn loop_line(window: Option<(u64, u64)>) -> Seq<char> {
    match window {
        Some((b, e)) => "loop "@ + decimal_text(b as nat) + "\u{2013}"@ + decimal_text(e as nat),
        None => "loop \u{2014}"@,
    }
}

/// The loop window in words.
pub fn loop_text(window: Option<(u64, u64)>) -> (r: String)
    ensures
        r@ == loop_line(window),
{
    match window {
        Some((b, e)) => {
            let mut s = join("loop ", decimal(b as u128).as_str());
            s.append("\u{2013}");
            s.append(decimal(e as u128).as_str());
            s
        },
        None => "loop \u{2014}".to_owned(),
    }
}

/// The status after a session was loaded.
pub open spec fn loaded_line(n: nat, root: Seq<char>) -> Seq<char> {
    if n == 0 {
        "loaded (no takes) \u{2192} "@ + root
    } else {
        "loaded "@ + decimal_text(n) + " section(s) \u{2192} "@ + root
    }
}

/// The status after a session with `n` takes was loaded.
pub fn loaded_status(n: usize, root: &str) -> (r: String)
    ensures
        r@ == loaded_line(n as nat, root@),
{
    if n == 0 {
        join("loaded (no takes) \u{2192} ", root)
    } else {
        let mut s = join("loaded ", decimal(n as u128).as_str());
        s.append(" section(s) \u{2192} ");
        s.append(root);
        s
    }
}

/// The status after a bundle was brought in.
pub open spec fn imported_line(n: nat, dir: Seq<char>) -> Seq<char> {
    "imported "@ + decimal_text(n) + " section(s) from "@ + dir
}

/// The status after a bundle with `n` sections was brought in.
pub fn imported_status(n: usize, dir: &str) -> (r: String)
    ensures
        r@ == imported_line(n as nat, dir@),
{
    let mut s = join("imported ", decimal(n as u128).as_str());
    s.append(" section(s) from ");
    s.append(dir);
    s
}

/// The status of the MIDI clock, with the tempo already in words.
pub open spec fn midi_line(grid: GridState, tempo: Seq<char>, time_sig: u32) -> Seq<char> {
    if !grid.connected {
        "MIDI: waiting \u{2014} route your DAW's MIDI clock to \"Gatherer Hub\""@
    } else {
        let at = bar_beat_at(grid.pulses, time_sig as int);
        "MIDI "@ + (if grid.playing {
            "\u{25B6}"@
        } else {
            "\u{25A0}"@
        }) + "  "@ + tempo + "   bar "@ + decimal_text(at.0 as nat) + " : beat "@ + decimal_text(
            at.1 as nat,
        ) + "   meter "@ + decimal_text(time_sig as nat) + "/4"@
    }
}

/// The status of the MIDI clock.
pub fn midi_status_line(grid: &Option<GridState>, tempo: &str, time_sig: u32) -> (r: String)
    requires
        time_sig > 0,
        grid matches Some(g) ==> bar_fits(g.pulses, time_sig as int),
    ensures
        match grid {
            Some(g) => r@ == midi_line(*g, tempo@, time_sig),
            None => r@ == "MIDI: unavailable"@,
        },
{
    match grid {
        None => "MIDI: unavailable".to_owned(),
        Some(g) => {
            if !g.connected {
                return "MIDI: waiting \u{2014} route your DAW's MIDI clock to \"Gatherer Hub\"".to_owned();
            }
            let (bar, beat) = bar_beat_in(g.pulses, time_sig);
            let mut s = join("MIDI ", if g.playing {
                "\u{25B6}"
            } else {
                "\u{25A0}"
            });
            s.append("  ");
            s.append(tempo);
            s.append("   bar ");
            s.append(decimal(bar as u128).as_str());
            s.append(" : beat ");
            s.append(decimal(beat as u128).as_str());
            s.append("   meter ");
            s.append(decimal(time_sig as u128).as_str());
            s.append("/4");
            s
        },
    }
}

/// The folder of a session.
pub open spec fn session_folder(name: Seq<char>) -> Seq<char> {
    if blank(name) {
        "untitled"@
    } else {
        trimmed(name)
    }
}

/// The folder of a session: its name, or that of a session without one.
pub fn folder_name(session_name: &str) -> (r: String)
    ensures
        r@ == session_folder(session_name@),
{
    if is_blank(session_name) {
        "untitled".to_owned()
    } else {
        trim(session_name)
    }
}

} // verus!
