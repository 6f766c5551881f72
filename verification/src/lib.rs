//! The verified core of the Omniphony studio front end: the Lua highlighter of
//! the backend file editor, help cards and the help and markup text, the SOFA
//! licence classifier and browser state, the drafts of text fields, the
//! profile picker, file dialogs and layout transfers, the shared scene,
//! object naming and colouring, and the small tables and decisions the panels
//! are built from.

pub mod dialogs;
pub mod drafts;
pub mod help;
pub mod icons;
pub mod lua;
pub mod markup;
pub mod objects;
pub mod options;
pub mod panels;
pub mod prefs;
pub mod profiles;
pub mod screen;
pub mod script;
pub mod scene;
pub mod sheet;
pub mod sofa;
pub mod text;
pub mod theme;
pub mod transfer;
pub mod view;

pub use dialogs::{after_pick, Picked, Purpose};
pub use drafts::{BackendPathDrafts, FieldEvents, PathDraft, TextDraft};
pub use help::{excerpt, HelpCards, BREAK, EXCERPT_MAX};
pub use lua::{tokenize, Run, Tok};
pub use markup::{parse, Piece};
pub use objects::{badge_code, base_color_hex, display_name, ObjectDisplayMode, OBJECT_TEST_SOURCE_ID};
pub use options::{option_schema, OptionDefault, OptionKind, OptionSpec, OptionValue};
pub use panels::{
    backend_label, evaluation_label, phantom_gate, reason_text, toggle, CoordMode, DelayTool, Filter, Flyout,
    OutputMode, RendererTab, SpeakerTab,
};
pub use prefs::{read_schema_version, SchemaVersion, UpdatePrefs};
pub use profiles::{NameEditor, ProfileAction, ProfilePanel, Snapshot};
pub use scene::{Scene, SceneObject, Speaker};
pub use screen::{rgb, white_alpha, Color, WHITE};
pub use script::{FileContent, FilePut, FileRequest, ScriptEditor};
pub use sheet::{faces, sliders, Axis, AxisRef, Face, FaceId, Slider, Target, Which};
pub use sofa::{license_label, BrowserView, Job, LocalSofa, SofaAction, SofaBrowser, SofaEntry, SofaMeta};
pub use transfer::{LayoutTransfer, Pending, Report, Task, TransferAction, TransferError};
pub use view::{EditMode, GizmoState, Selection, Severity, Side, TrailMode, VolumeData};
