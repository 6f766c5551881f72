//! The decisions and tables of the panels: which catalogue key labels what,
//! which parameters a method reads, and what a selection change does to a
//! running speaker test. Keys are translated where they are shown.

use vstd::prelude::*;
use crate::text::{chars_of, extend_str, string_of, trim, trim_exec};

verus! {

// ---------------------------------------------------------------------------
// Renderer panel
// ---------------------------------------------------------------------------

/// Which half of the renderer panel is showing. UI state, not persisted,
/// Renderer first.
#[derive(Clone, Copy, Debug, Default, PartialEq, Eq, Structural)]
pub enum RendererTab {
    #[default]
    Renderer,
    Binaural,
}

/// Output-mode select: the pair `(outputMode, mode)` of the binaural state
/// flattened into one choice.
#[derive(Clone, Copy, Debug, PartialEq, Eq, Structural)]
pub enum OutputMode {
    Speaker,
    BinauralDirect,
    BinauralCascaded,
}

impl OutputMode {
    /// The catalogue key of the mode's label.
    pub fn label(self) -> (r: &'static str)
        ensures
            r@ == match self {
                OutputMode::Speaker => "outputMode.speakers"@,
                OutputMode::BinauralDirect => "outputMode.headphones"@,
                OutputMode::BinauralCascaded => "outputMode.headphonesVirtual"@,
            },
    {
        match self {
            OutputMode::Speaker => "outputMode.speakers",
            OutputMode::BinauralDirect => "outputMode.headphones",
            OutputMode::BinauralCascaded => "outputMode.headphonesVirtual",
        }
    }

    /// The flattened value, from the binaural document's
    /// `outputMode` and `mode` strings when it has them.
    pub fn from_state(output_mode: Option<&str>, mode: Option<&str>) -> (r: OutputMode)
        ensures
            r == match output_mode {
                Some(o) => if o@ == "binaural"@ {
                    match mode {
                        Some(m) => if m@ == "cascaded"@ {
                            OutputMode::BinauralCascaded
                        } else {
                            OutputMode::BinauralDirect
                        },
                        None => OutputMode::BinauralDirect,
                    }
                } else {
                    OutputMode::Speaker
                },
                None => OutputMode::Speaker,
            },
    {
        match output_mode {
            Some(o) => {
                if !str_is(o, "binaural") {
                    return OutputMode::Speaker;
                }
            },
            None => {
                return OutputMode::Speaker;
            },
        }
        match mode {
            Some(m) => if str_is(m, "cascaded") {
                OutputMode::BinauralCascaded
            } else {
                OutputMode::BinauralDirect
            },
            None => OutputMode::BinauralDirect,
        }
    }
}

/// Whether two strings have the same characters.
pub fn str_is(a: &str, b: &str) -> (r: bool)
    ensures
        r == (a@ == b@),
{
    let v = chars_of(a);
    crate::text::equals_exec(&v, b)
}

/// The catalogue key of an evaluation mode's
/// label; an unknown mode reads as idle.
pub fn evaluation_label(mode: &str) -> (r: &'static str)
    ensures
        r@ == if mode@ == "auto"@ {
            "common.auto"@
        } else if mode@ == "realtime"@ {
            "eval.mode.realtime"@
        } else if mode@ == "precomputed_polar"@ {
            "common.polarShort"@
        } else if mode@ == "precomputed_cartesian"@ {
            "common.cartesianShort"@
        } else {
            "vbap.status.idle"@
        },
{
    if str_is(mode, "auto") {
        "common.auto"
    } else if str_is(mode, "realtime") {
        "eval.mode.realtime"
    } else if str_is(mode, "precomputed_polar") {
        "common.polarShort"
    } else if str_is(mode, "precomputed_cartesian") {
        "common.cartesianShort"
    } else {
        "vbap.status.idle"
    }
}

/// The evaluation modes, in the select's order.
pub open spec fn evaluation_modes() -> Seq<Seq<char>> {
    seq!["auto"@, "realtime"@, "precomputed_polar"@, "precomputed_cartesian"@]
}

pub open spec fn strs(v: Seq<String>) -> Seq<Seq<char>> {
    v.map_values(|s: String| s@)
}

pub open spec fn opt_str(o: Option<&str>) -> Option<Seq<char>> {
    match o {
        Some(s) => Some(s@),
        None => None,
    }
}

pub open spec fn opt_string(o: Option<String>) -> Option<Seq<char>> {
    match o {
        Some(s) => Some(s@),
        None => None,
    }
}

/// What the evaluation group shows.
pub struct EvaluationView {
    /// The mode chosen, `auto` when none is.
    pub selection: String,
    /// What the engine resolved the choice to, when it differs from it.
    pub resolved: Option<String>,
    /// The modes offered: the backend's allowed ones, or all of them.
    pub modes: Vec<String>,
    /// The mode whose grid applies: the effective one under `auto`.
    pub visible_mode: String,
    pub show_cartesian: bool,
    pub show_polar: bool,
    /// The position-interpolation switch, under either grid.
    pub show_interpolation: bool,
    /// The object-size row: hidden only when the backend cannot size events.
    pub show_size: bool,
}

/// The evaluation group from the renderer's state: the selection (`auto`
/// when unset), the effective mode, the backend's allowed modes (all of them
/// when it lists none), and its capabilities: precomputed cartesian,
/// precomputed polar, spread; unknown capabilities allow everything.
pub fn evaluation_view(
    selection: Option<&str>,
    effective: Option<&str>,
    allowed: &Vec<String>,
    caps: Option<(bool, bool, bool)>,
) -> (v: EvaluationView)
    ensures
        v.selection@ == match selection {
            Some(s) => s@,
            None => "auto"@,
        },
        opt_string(v.resolved) == match effective {
            Some(e) => if e@ != v.selection@ {
                Some(e@)
            } else {
                None
            },
            None => None,
        },
        strs(v.modes@) == if allowed@.len() == 0 {
            evaluation_modes()
        } else {
            strs(allowed@)
        },
        v.visible_mode@ == if v.selection@ == "auto"@ {
            match effective {
                Some(e) => e@,
                None => "auto"@,
            }
        } else {
            v.selection@
        },
        v.show_cartesian == (v.visible_mode@ == "precomputed_cartesian"@ && match caps {
            Some(c) => c.0,
            None => true,
        }),
        v.show_polar == (v.visible_mode@ == "precomputed_polar"@ && match caps {
            Some(c) => c.1,
            None => true,
        }),
        v.show_interpolation == (v.show_cartesian || v.show_polar),
        v.show_size == match caps {
            Some(c) => c.2,
            None => true,
        },
{
    let sel: String = match selection {
        Some(s) => s.to_owned(),
        None => "auto".to_owned(),
    };
    let resolved: Option<String> = match effective {
        Some(e) => if !str_is(e, sel.as_str()) {
            Some(e.to_owned())
        } else {
            None
        },
        None => None,
    };
    let mut modes: Vec<String> = Vec::new();
    if allowed.len() == 0 {
        modes.push("auto".to_owned());
        modes.push("realtime".to_owned());
        modes.push("precomputed_polar".to_owned());
        modes.push("precomputed_cartesian".to_owned());
        proof {
            assert(strs(modes@) =~= evaluation_modes());
        }
    } else {
        let mut i: usize = 0;
        while i < allowed.len()
            invariant
                i <= allowed@.len(),
                modes@.len() == i,
                strs(modes@) == strs(allowed@.take(i as int)),
            decreases allowed@.len() - i,
        {
            let ghost before = modes@;
            let item = allowed[i].clone();
            assert(item@ == allowed@[i as int]@);
            modes.push(item);
            i = i + 1;
            proof {
                assert forall|k: int| 0 <= k < i implies #[trigger] strs(modes@)[k] == strs(allowed@.take(i as int))[k] by {
                    if k < i - 1 {
                        assert(modes@[k] == before[k]);
                        assert(strs(before)[k] == strs(allowed@.take(i - 1))[k]);
                    }
                }
                assert(strs(modes@) =~= strs(allowed@.take(i as int)));
            }
        }
        proof {
            assert(allowed@.take(i as int) =~= allowed@);
        }
    }
    let visible: String = if str_is(sel.as_str(), "auto") {
        match effective {
            Some(e) => e.to_owned(),
            None => "auto".to_owned(),
        }
    } else {
        sel.clone()
    };
    let (cart, polar, size) = match caps {
        Some(c) => c,
        None => (true, true, true),
    };
    let show_cartesian = str_is(visible.as_str(), "precomputed_cartesian") && cart;
    let show_polar = str_is(visible.as_str(), "precomputed_polar") && polar;
    EvaluationView {
        selection: sel,
        resolved,
        modes,
        visible_mode: visible,
        show_cartesian,
        show_polar,
        show_interpolation: show_cartesian || show_polar,
        show_size: size,
    }
}

/// Whether a choice in the evaluation select is sent: only when it changed
/// and is one of the modes offered.
pub fn evaluation_send(selection: &str, chosen: &str, allowed: &Vec<String>) -> (r: bool)
    ensures
        r == (chosen@ != selection@ && exists|i: int| 0 <= i < allowed@.len() && #[trigger] allowed@[i]@ == chosen@),
{
    if str_is(chosen, selection) {
        return false;
    }
    let mut i: usize = 0;
    while i < allowed.len()
        invariant
            i <= allowed@.len(),
            chosen@ != selection@,
            forall|k: int| 0 <= k < i ==> #[trigger] allowed@[k]@ != chosen@,
        decreases allowed@.len() - i,
    {
        if str_is(allowed[i].as_str(), chosen) {
            assert(allowed@[i as int]@ == chosen@);
            return true;
        }
        i = i + 1;
    }
    false
}

/// The display name of a rendering backend; an unknown one is shown by id.
pub fn backend_label(id: &str) -> (r: String)
    ensures
        r@ == if id@ == "vbap"@ {
            "VBAP"@
        } else if id@ == "barycenter"@ {
            "Barycenter"@
        } else if id@ == "experimental_distance"@ {
            "Distance"@
        } else if id@ == "hybrid"@ {
            "Hybrid"@
        } else {
            id@
        },
{
    if str_is(id, "vbap") {
        "VBAP".to_owned()
    } else if str_is(id, "barycenter") {
        "Barycenter".to_owned()
    } else if str_is(id, "experimental_distance") {
        "Distance".to_owned()
    } else if str_is(id, "hybrid") {
        "Hybrid".to_owned()
    } else {
        id.to_owned()
    }
}

/// A translated parameter label wins over the schema's own. `translated` is
/// the catalogue's text for `backendParam.<key>`, which is that key itself
/// when the catalogue has none; then the schema's `label`, else `key`.
pub fn param_label(key: &str, translated: &str, label: Option<&str>) -> (r: String)
    ensures
        r@ == if translated@ != "backendParam."@ + key@ {
            translated@
        } else {
            match label {
                Some(l) => l@,
                None => key@,
            }
        },
{
    let mut catalogue_key: Vec<char> = chars_of("backendParam.");
    extend_str(&mut catalogue_key, key);
    if !crate::text::equals_exec(&catalogue_key, translated) {
        return translated.to_owned();
    }
    match label {
        Some(l) => l.to_owned(),
        None => key.to_owned(),
    }
}

/// The label of the choice `value` of the parameter `key`: the catalogue's
/// text for `backendParamOption.<key>.<value>` (`translated`, the key itself
/// when there is none), else the option's own `label`, else `value`.
pub fn option_label(key: &str, value: &str, translated: &str, label: Option<&str>) -> (r: String)
    ensures
        r@ == if translated@ != "backendParamOption."@ + key@ + "."@ + value@ {
            translated@
        } else {
            match label {
                Some(l) => l@,
                None => value@,
            }
        },
{
    let mut catalogue_key: Vec<char> = chars_of("backendParamOption.");
    extend_str(&mut catalogue_key, key);
    extend_str(&mut catalogue_key, ".");
    extend_str(&mut catalogue_key, value);
    proof {
        assert(catalogue_key@ =~= "backendParamOption."@ + key@ + "."@ + value@);
    }
    if !crate::text::equals_exec(&catalogue_key, translated) {
        return translated.to_owned();
    }
    match label {
        Some(l) => l.to_owned(),
        None => value.to_owned(),
    }
}

/// The help of a backend parameter: the catalogue's paragraph
/// (`backendParamHelp.<key>`) when it has one, else the schema's own.
pub fn param_help(translated: Option<&str>, help: Option<&str>) -> (r: Option<String>)
    ensures
        match translated {
            Some(t) => r matches Some(s) && s@ == t@,
            None => match help {
                Some(h) => r matches Some(s) && s@ == h@,
                None => r is None,
            },
        },
{
    match translated {
        Some(t) => Some(t.to_owned()),
        None => match help {
            Some(h) => Some(h.to_owned()),
            None => None,
        },
    }
}

/// A panel-level help: the overlay's title and its body.
pub struct Overlay {
    pub title: String,
    pub body: String,
}

/// The label a backend list gives `id`, or `id` itself.
pub open spec fn backend_list_label(id: Seq<char>, backends: Seq<(String, String)>) -> Seq<char>
    decreases backends.len(),
{
    if backends.len() == 0 {
        id
    } else if backends[0].0@ == id {
        backends[0].1@
    } else {
        backend_list_label(id, backends.skip(1))
    }
}

/// The label a backend list gives `id`, or `id` itself.
fn list_label(id: &Vec<char>, backends: &Vec<(String, String)>) -> (r: Vec<char>)
    ensures
        r@ == backend_list_label(id@, backends@),
{
    let mut i: usize = 0;
    assert(backends@.skip(0) =~= backends@);
    while i < backends.len()
        invariant
            i <= backends@.len(),
            backend_list_label(id@, backends@) == backend_list_label(
                id@,
                backends@.skip(i as int),
            ),
        decreases backends@.len() - i,
    {
        let value = chars_of(backends[i].0.as_str());
        assert(backends@.skip(i as int).skip(1) =~= backends@.skip(i + 1));
        if crate::text::equals_vec(&value, id) {
            return chars_of(backends[i].1.as_str());
        }
        i = i + 1;
    }
    assert(backends@.skip(i as int).len() == 0);
    id.clone()
}

/// The value a generated backend form shows for a parameter: what the
/// renderer stored, else the schema's default, else none (null).
pub fn param_value<T>(stored: Option<T>, default: Option<T>) -> (r: Option<T>)
    ensures
        r == match stored {
            Some(v) => Some(v),
            None => default,
        },
{
    match stored {
        Some(v) => Some(v),
        None => default,
    }
}

/// The text an enum parameter's select shows: the label of the option whose
/// value is `current`, else the raw value.
pub fn enum_selected_label(current: &str, options: &Vec<(String, String)>) -> (r: String)
    ensures
        r@ == backend_list_label(current@, options@),
{
    let id = chars_of(current);
    let label = list_label(&id, options);
    string_of(&label)
}

/// The choice of an enum parameter to send: only one that changed.
pub fn enum_choice(current: &str, chosen: String) -> (r: Option<String>)
    ensures
        chosen@ == current@ ==> r is None,
        chosen@ != current@ ==> r == Some(chosen),
{
    if str_is(chosen.as_str(), current) {
        None
    } else {
        Some(chosen)
    }
}

/// The hint of a file parameter's field: `name.` and the first declared
/// extension; with none, an example path for a `path` parameter, else
/// `name.ext`.
pub fn path_hint(extensions: &Vec<String>, is_path: bool) -> (r: String)
    ensures
        r@ == if extensions@.len() > 0 {
            "name."@ + extensions@[0]@
        } else if is_path {
            "/path/to/backend.lua"@
        } else {
            "name.ext"@
        },
{
    if extensions.len() > 0 {
        let mut v: Vec<char> = chars_of("name.");
        extend_str(&mut v, extensions[0].as_str());
        string_of(&v)
    } else if is_path {
        "/path/to/backend.lua".to_owned()
    } else {
        "name.ext".to_owned()
    }
}

/// The generic intro, then, when the catalogue
/// has a paragraph on the selected backend (`specific`), the backend's label
/// in bold and that paragraph.
pub fn backend_overlay(
    intro: Overlay,
    selection: &str,
    backends: &Vec<(String, String)>,
    specific: Option<&str>,
) -> (r: Overlay)
    ensures
        r.title == intro.title,
        match specific {
            Some(text) => r.body@ == intro.body@ + "<br><br><strong>"@ + backend_list_label(
                trim(selection@),
                backends@,
            ) + "</strong><br>"@ + text@,
            None => r.body == intro.body,
        },
{
    match specific {
        None => intro,
        Some(text) => {
            let id = trim_exec(selection);
            let label = list_label(&id, backends);
            let mut body: Vec<char> = chars_of(intro.body.as_str());
            extend_str(&mut body, "<br><br><strong>");
            crate::text::extend_chars(&mut body, &label);
            extend_str(&mut body, "</strong><br>");
            extend_str(&mut body, text);
            Overlay { title: intro.title, body: string_of(&body) }
        },
    }
}

/// The engine's recompute state, the error it reported,
/// or our own silence timeout, as the text (a catalogue key, or the error
/// itself) and its colour. `None` while nothing has happened yet.
pub fn vbap_status(error: &Option<String>, recomputing: Option<bool>, timed_out: bool) -> (r: Option<
    (String, crate::theme::Color32),
>)
    ensures
        match error {
            Some(message) => r matches Some((text, colour)) && text@ == message@ && colour
                == crate::theme::ERROR,
            None => if timed_out {
                r matches Some((text, colour)) && text@ == "vbap.status.noAck"@ && colour
                    == crate::theme::ERROR
            } else {
                match recomputing {
                    Some(true) => r matches Some((text, colour)) && text@ == "vbap.status.computing"@
                        && colour == crate::theme::WARN,
                    Some(false) => r matches Some((text, colour)) && text@ == "vbap.status.ready"@
                        && colour == crate::theme::OK,
                    None => r is None,
                }
            },
        },
{
    match error {
        Some(message) => Some((message.clone(), crate::theme::ERROR)),
        None => {
            if timed_out {
                Some(("vbap.status.noAck".to_owned(), crate::theme::ERROR))
            } else {
                match recomputing {
                    Some(true) => Some(("vbap.status.computing".to_owned(), crate::theme::WARN)),
                    Some(false) => Some(("vbap.status.ready".to_owned(), crate::theme::OK)),
                    None => None,
                }
            }
        },
    }
}

// ---------------------------------------------------------------------------
// Speaker editor
// ---------------------------------------------------------------------------

/// Which tab of the speaker editor is showing.
#[derive(Clone, Copy, Debug, Default, PartialEq, Eq, Structural)]
pub enum SpeakerTab {
    #[default]
    Edit,
    Test,
}

/// Coordinate mode of the speaker editor's two tables.
#[derive(Clone, Copy, Debug, PartialEq, Eq, Structural)]
pub enum CoordMode {
    Cartesian,
    Polar,
}

/// The speaker editor's two bulk delay tools.
#[derive(Clone, Copy, Debug, PartialEq, Eq, Structural)]
pub enum DelayTool {
    /// Delay every speaker so all arrive with the farthest one.
    CalcDelays,
    /// Move every speaker along its direction until its distance matches its
    /// delay, the farthest speaker being the reference.
    DelayToDistance,
}

impl DelayTool {
    /// The catalogue key of the question asked before the tool runs.
    pub fn confirm_key(self) -> (r: &'static str)
        ensures
            r@ == match self {
                DelayTool::CalcDelays => "confirm.calcDelays"@,
                DelayTool::DelayToDistance => "confirm.delayToDist"@,
            },
    {
        match self {
            DelayTool::CalcDelays => "confirm.calcDelays",
            DelayTool::DelayToDistance => "confirm.delayToDist",
        }
    }

    /// The catalogue key of the tool's button.
    pub fn label_key(self) -> (r: &'static str)
        ensures
            r@ == match self {
                DelayTool::CalcDelays => "speaker.calcDelays"@,
                DelayTool::DelayToDistance => "speaker.delayToDist"@,
            },
    {
        match self {
            DelayTool::CalcDelays => "speaker.calcDelays",
            DelayTool::DelayToDistance => "speaker.delayToDist",
        }
    }
}

pub open spec fn is_title_tail(c: char) -> bool {
    c == ':' || c == '\u{ff1a}' || c == ' ' || c == '\u{a0}'
}

/// How many title-tail characters close `s`.
pub open spec fn title_tail(s: Seq<char>) -> nat
    decreases s.len(),
{
    if s.len() > 0 && is_title_tail(s.last()) {
        1 + title_tail(s.drop_last())
    } else {
        0
    }
}

/// The coordinates group's title: the catalogue's row label
/// (`speaker.coordinates`, translated) without the colon it carries as a row
/// label (`Coordinates:`, `Coordonnées :`, `座標：`).
pub fn coordinates_title(label: &str) -> (r: String)
    ensures
        r@ == label@.take(label@.len() - title_tail(label@)),
{
    let v = chars_of(label);
    let mut b: usize = v.len();
    assert(v@.take(v@.len() as int) =~= v@);
    while b > 0 && (v[b - 1] == ':' || v[b - 1] == '\u{ff1a}' || v[b - 1] == ' ' || v[b - 1]
        == '\u{a0}')
        invariant
            b <= v@.len(),
            v@ == label@,
            title_tail(v@) == (v@.len() - b) + title_tail(v@.take(b as int)),
        decreases b,
    {
        assert(v@.take(b as int).drop_last() =~= v@.take(b - 1));
        b = b - 1;
    }
    proof {
        if b > 0 {
            assert(v@.take(b as int).last() == v@[b - 1]);
        }
        assert(v@.take(v@.len() as int) =~= v@);
    }
    let t = crate::text::slice_chars(&v, 0, b);
    string_of(&t)
}

/// What a change of selection does to a running speaker test.
#[derive(Clone, Copy, Debug, PartialEq, Eq, Structural)]
pub enum TestFollow {
    /// Nothing runs, or it runs on the selected speaker.
    Keep,
    /// Start the test on the newly selected speaker.
    Start(usize),
    /// Stop the test.
    Stop,
}

/// A test running on another speaker follows a
/// new selection in toggle mode, and stops in the others (or when nothing is
/// selected).
pub fn follow_speaker_selection(
    running: Option<usize>,
    selected: Option<usize>,
    toggle_mode: bool,
) -> (r: TestFollow)
    ensures
        r == match running {
            None => TestFollow::Keep,
            Some(run) => match selected {
                Some(index) => if index == run {
                    TestFollow::Keep
                } else if toggle_mode {
                    TestFollow::Start(index)
                } else {
                    TestFollow::Stop
                },
                None => TestFollow::Stop,
            },
        },
{
    match running {
        None => TestFollow::Keep,
        Some(run) => match selected {
            Some(index) => if index == run {
                TestFollow::Keep
            } else if toggle_mode {
                TestFollow::Start(index)
            } else {
                TestFollow::Stop
            },
            None => TestFollow::Stop,
        },
    }
}

/// The renderer's idle feed is wanted for the speaker test while the Test
/// tab is open on a selected speaker.
pub fn speaker_test_wants_idle_feed(tab: SpeakerTab, selected: Option<usize>) -> (r: bool)
    ensures
        r == (tab == SpeakerTab::Test && selected is Some),
{
    tab == SpeakerTab::Test && selected.is_some()
}

// ---------------------------------------------------------------------------
// Fixed-channel sources
// ---------------------------------------------------------------------------

/// `PROCESSING_REASON_KEYS`: the catalogue key saying why a synthesis stage
/// is or is not running.
pub fn reason_text(reason: &str) -> (r: &'static str)
    ensures
        r@ == if reason@ == "active"@ {
            "twoDSources.status.active"@
        } else if reason@ == "off"@ {
            "twoDSources.status.off"@
        } else if reason@ == "master_off"@ {
            "twoDSources.status.masterOff"@
        } else if reason@ == "object_stream"@ {
            "twoDSources.status.objectStream"@
        } else if reason@ == "input_has_height"@ {
            "twoDSources.status.inputHasHeight"@
        } else if reason@ == "output_has_no_height"@ {
            "twoDSources.status.outputHasNoHeight"@
        } else if reason@ == "insufficient_channels"@ {
            "twoDSources.status.insufficientChannels"@
        } else {
            "twoDSources.status.noStream"@
        },
{
    if str_is(reason, "active") {
        "twoDSources.status.active"
    } else if str_is(reason, "off") {
        "twoDSources.status.off"
    } else if str_is(reason, "master_off") {
        "twoDSources.status.masterOff"
    } else if str_is(reason, "object_stream") {
        "twoDSources.status.objectStream"
    } else if str_is(reason, "input_has_height") {
        "twoDSources.status.inputHasHeight"
    } else if str_is(reason, "output_has_no_height") {
        "twoDSources.status.outputHasNoHeight"
    } else if str_is(reason, "insufficient_channels") {
        "twoDSources.status.insufficientChannels"
    } else {
        "twoDSources.status.noStream"
    }
}

/// The translation of the parameter's `i18nKey` when the
/// catalogue has one, else the English label the schema carries, else the
/// parameter's key.
pub fn schema_label(key: &str, translated: Option<&str>, label: Option<&str>) -> (r: String)
    ensures
        r@ == match translated {
            Some(t) => t@,
            None => match label {
                Some(l) => l@,
                None => key@,
            },
        },
{
    match translated {
        Some(t) => t.to_owned(),
        None => match label {
            Some(l) => l.to_owned(),
            None => key.to_owned(),
        },
    }
}

/// How an entry of a select is labelled: a catalogue key to translate, or
/// text to show as it is.
#[derive(Clone, Debug, PartialEq, Eq)]
pub enum Label {
    Key(&'static str),
    Text(String),
}

/// A generator the renderer declares: its id, the translation of its
/// `i18nKey` (the catalogue gives the key back when it has none), and the
/// English label it carries.
pub struct GeneratorDecl {
    pub id: Option<String>,
    pub translated: Option<String>,
    pub label: Option<String>,
}

/// The label of a declared generator: its translation when there is a real
/// one (a text without a dot), else its own label, else its id.
pub open spec fn generator_label(g: GeneratorDecl, id: Seq<char>) -> Seq<char> {
    match g.translated {
        Some(t) if !t@.contains('.') => t@,
        _ => match g.label {
            Some(l) => l@,
            None => id,
        },
    }
}

/// The entries for the declared generators, in order; one without an id is
/// left out.
pub open spec fn declared_options(list: Seq<GeneratorDecl>) -> Seq<(Seq<char>, Seq<char>)>
    decreases list.len(),
{
    if list.len() == 0 {
        Seq::empty()
    } else {
        let rest = declared_options(list.drop_last());
        match list.last().id {
            Some(id) => rest.push((id@, generator_label(list.last(), id@))),
            None => rest,
        }
    }
}

pub open spec fn option_view(o: (String, Label)) -> (Seq<char>, Label) {
    (o.0@, o.1)
}

/// "Off" plus one entry per declared generator; when the renderer declares
/// none (an older renderer, or an empty list), the built-in generators.
#[verifier::spinoff_prover]
#[verifier::rlimit(30)]
pub fn generator_options(declared: Option<Vec<GeneratorDecl>>) -> (r: Vec<(String, Label)>)
    ensures
        r@.len() >= 1,
        option_view(r@[0]) == ("none"@, Label::Key("twoDSources.objectGenNone")),
        match declared {
            Some(list) if list@.len() > 0 => {
                &&& r@.len() == 1 + declared_options(list@).len()
                &&& forall|i: int| 0 <= i < declared_options(list@).len() ==> {
                    &&& #[trigger] r@[i + 1].0@ == declared_options(list@)[i].0
                    &&& r@[i + 1].1 matches Label::Text(t) && t@ == declared_options(list@)[i].1
                }
            },
            _ => {
                &&& r@.len() == 4
                &&& option_view(r@[1]) == ("copy_up"@, Label::Key("twoDSources.objectGenCopyUp"))
                &&& option_view(r@[2]) == ("pad"@, Label::Key("twoDSources.objectGenPad"))
                &&& option_view(r@[3]) == ("dirac"@, Label::Key("twoDSources.objectGenDirac"))
            },
        },
{
    let mut options: Vec<(String, Label)> = Vec::new();
    options.push(("none".to_owned(), Label::Key("twoDSources.objectGenNone")));
    let list = match declared {
        Some(list) if list.len() > 0 => list,
        _ => {
            options.push(("copy_up".to_owned(), Label::Key("twoDSources.objectGenCopyUp")));
            options.push(("pad".to_owned(), Label::Key("twoDSources.objectGenPad")));
            options.push(("dirac".to_owned(), Label::Key("twoDSources.objectGenDirac")));
            return options;
        },
    };
    let mut i: usize = 0;
    while i < list.len()
        invariant
            i <= list@.len(),
            option_view(options@[0]) == ("none"@, Label::Key("twoDSources.objectGenNone")),
            options@.len() == 1 + declared_options(list@.take(i as int)).len(),
            forall|k: int| 0 <= k < declared_options(list@.take(i as int)).len() ==> {
                &&& #[trigger] options@[k + 1].0@ == declared_options(list@.take(i as int))[k].0
                &&& options@[k + 1].1 matches Label::Text(t) && t@ == declared_options(list@.take(i as int))[k].1
            },
        decreases list@.len() - i,
    {
        let g = &list[i];
        proof {
            assert(list@.take(i + 1).drop_last() =~= list@.take(i as int));
            assert(list@.take(i + 1).last() == list@[i as int]);
        }
        let ghost before = options@;
        let ghost done = declared_options(list@.take(i as int));
        match &g.id {
            Some(id) => {
                let label = generator_label_exec(g, id);
                options.push((id.clone(), Label::Text(label)));
                proof {
                    let now = declared_options(list@.take(i + 1));
                    assert(now == done.push((id@, generator_label(list@[i as int], id@))));
                    assert forall|k: int| 0 <= k < now.len() implies {
                        &&& #[trigger] options@[k + 1].0@ == now[k].0
                        &&& options@[k + 1].1 matches Label::Text(t) && t@ == now[k].1
                    } by {
                        if k < done.len() {
                            assert(options@[k + 1] == before[k + 1]);
                        }
                    }
                }
            },
            None => {},
        }
        i = i + 1;
    }
    proof {
        assert(list@.take(list@.len() as int) =~= list@);
    }
    options
}

fn generator_label_exec(g: &GeneratorDecl, id: &String) -> (r: String)
    ensures
        r@ == generator_label(*g, id@),
{
    if let Some(t) = &g.translated {
        let chars = chars_of(t.as_str());
        proof {
            crate::text::lemma_find_char(chars@, '.', 0);
        }
        match crate::text::find_char_exec(&chars, '.', 0) {
            None => {
                assert(!t@.contains('.'));
                return t.clone();
            },
            Some(k) => {
                assert(t@[k as int] == '.');
            },
        }
    }
    match &g.label {
        Some(l) => l.clone(),
        None => id.clone(),
    }
}

/// When `key` is read only by the method that is
/// not running, the catalogue key of the note saying so.
pub fn phantom_gate(key: &str, spectral: bool) -> (r: Option<&'static str>)
    ensures
        spectral && (key@ == "passes"@ || key@ == "center"@ || key@ == "sides"@) ==> (r matches Some(
            note,
        ) && note@ == "twoDSources.phantomBroadbandOnly"@),
        !spectral && (key@ == "heights"@ || key@ == "height_split"@) ==> (r matches Some(note)
            && note@ == "twoDSources.phantomSpectralOnly"@),
        !(spectral && (key@ == "passes"@ || key@ == "center"@ || key@ == "sides"@)) && !(!spectral
            && (key@ == "heights"@ || key@ == "height_split"@)) ==> r is None,
{
    if spectral && (str_is(key, "passes") || str_is(key, "center") || str_is(key, "sides")) {
        Some("twoDSources.phantomBroadbandOnly")
    } else if !spectral && (str_is(key, "heights") || str_is(key, "height_split")) {
        Some("twoDSources.phantomSpectralOnly")
    } else {
        None
    }
}

/// The stage's own state
/// first, then the master switch, then what the renderer reports (`reported`,
/// `no_stream` when it says nothing).
pub fn effective_reason(configured: bool, master: bool, reported: Option<&str>) -> (r: String)
    ensures
        r@ == if !configured {
            "off"@
        } else if !master {
            "master_off"@
        } else {
            match reported {
                Some(s) => s@,
                None => "no_stream"@,
            }
        },
{
    if !configured {
        return "off".to_owned();
    }
    if !master {
        return "master_off".to_owned();
    }
    match reported {
        Some(s) => s.to_owned(),
        None => "no_stream".to_owned(),
    }
}

// ---------------------------------------------------------------------------
// Room geometry
// ---------------------------------------------------------------------------

/// What a room control did this frame: moved mid-drag (the scene previews
/// it), or settled (the renderer is sent it).
#[derive(Clone, Copy, Debug, Default, PartialEq, Eq, Structural)]
pub struct Step {
    pub preview: bool,
    pub commit: bool,
}

impl Step {
    /// A drag commits when it is let go; any other change (a value typed and
    /// entered, an arrow key) commits at once.
    pub fn of(changed: bool, drag_stopped: bool, dragged: bool) -> (r: Step)
        ensures
            r.preview == changed,
            r.commit == (drag_stopped || (changed && !dragged)),
    {
        Step { preview: changed, commit: drag_stopped || (changed && !dragged) }
    }

    /// What several controls did together.
    pub fn absorb(&mut self, other: Step)
        ensures
            final(self).preview == (old(self).preview || other.preview),
            final(self).commit == (old(self).commit || other.commit),
    {
        self.preview = self.preview || other.preview;
        self.commit = self.commit || other.commit;
    }
}

// ---------------------------------------------------------------------------
// Speaker row glyphs and the scene bar
// ---------------------------------------------------------------------------

/// Which crossover shape a speaker's band limits describe.
#[derive(Clone, Copy, Debug, PartialEq, Eq, Structural)]
pub enum Filter {
    Full,
    Low,
    High,
    Band,
}

impl Filter {
    /// The shape from which band limits are set: a high-pass limit without a
    /// low-pass one is a high-pass filter, and so on.
    pub fn of_limits(low: bool, high: bool) -> (r: Filter)
        ensures
            r == if !low && !high {
                Filter::Full
            } else if !low {
                Filter::Low
            } else if !high {
                Filter::High
            } else {
                Filter::Band
            },
    {
        match (low, high) {
            (false, false) => Filter::Full,
            (false, true) => Filter::Low,
            (true, false) => Filter::High,
            (true, true) => Filter::Band,
        }
    }

    /// The catalogue key of the glyph's title.
    pub fn title(self) -> (r: &'static str)
        ensures
            r@ == match self {
                Filter::Full => "speaker.filter.full"@,
                Filter::Low => "speaker.filter.low"@,
                Filter::High => "speaker.filter.high"@,
                Filter::Band => "speaker.filter.band"@,
            },
    {
        match self {
            Filter::Full => "speaker.filter.full",
            Filter::Low => "speaker.filter.low",
            Filter::High => "speaker.filter.high",
            Filter::Band => "speaker.filter.band",
        }
    }
}

/// Which flyout of the scene bar is open, if any.
#[derive(Clone, Copy, Debug, PartialEq, Eq, Structural)]
pub enum Flyout {
    Objects,
    Trails,
}

/// A press on a flyout's button: it closes the flyout when it is the open
/// one, and opens it (closing any other) when it is not.
pub open spec fn toggle_spec(current: Option<Flyout>, wanted: Flyout) -> Option<Flyout> {
    if current == Some(wanted) {
        None
    } else {
        Some(wanted)
    }
}

/// A press on a flyout's button: it closes the flyout when it is the open
/// one, and opens it (closing any other) when it is not.
pub fn toggle(current: Option<Flyout>, wanted: Flyout) -> (r: Option<Flyout>)
    ensures
        r == toggle_spec(current, wanted),
{
    match current {
        Some(open) => if open == wanted {
            None
        } else {
            Some(wanted)
        },
        None => Some(wanted),
    }
}

/// A press flips whether its flyout is open, and a second press flips it
/// back: after two presses the flyout is open exactly when it was before.
pub proof fn lemma_toggle_flips(current: Option<Flyout>, wanted: Flyout)
    ensures
        (toggle_spec(current, wanted) == Some(wanted)) == (current != Some(wanted)),
        (toggle_spec(toggle_spec(current, wanted), wanted) == Some(wanted)) == (current == Some(
            wanted,
        )),
{
}

} // verus!
