//! Persisted UI preferences: the schema version a preferences file carries,
//! the release check's remembered answer, and the Display panel's settings.

use vstd::prelude::*;
use crate::objects::ObjectDisplayMode;
use crate::text::{decimal, extend_str, push_decimal, string_of};
use crate::view::TrailMode;

verus! {

/// The preference schema this Studio reads and writes. Missing versions are
/// the original native format, version 1; future schemas are refused rather
/// than loaded as defaults and overwritten.
#[derive(Clone, Copy, Debug)]
pub struct SchemaVersion;

/// The only supported schema version.
pub const SUPPORTED_SCHEMA: u32 = 1;

impl SchemaVersion {
    /// The number a saved document carries.
    pub fn number(&self) -> (r: u32)
        ensures
            r == SUPPORTED_SCHEMA,
    {
        SUPPORTED_SCHEMA
    }
}

/// The refusal of an unsupported version.
pub open spec fn unsupported_text(version: u32) -> Seq<char> {
    "unsupported preference schema "@ + decimal(version as nat)
        + "; this Studio supports version 1"@
}

/// Read a document's schema version: version 1 is accepted, any other is
/// refused with a message naming it.
pub fn read_schema_version(version: u32) -> (r: Result<SchemaVersion, String>)
    ensures
        version == SUPPORTED_SCHEMA <==> r is Ok,
        r matches Err(message) ==> message@ == unsupported_text(version),
{
    if version == SUPPORTED_SCHEMA {
        Ok(SchemaVersion)
    } else {
        let mut text: Vec<char> = Vec::new();
        extend_str(&mut text, "unsupported preference schema ");
        push_decimal(&mut text, version as u64);
        extend_str(&mut text, "; this Studio supports version 1");
        Err(string_of(&text))
    }
}

/// What the release check found, kept between runs so the banner survives a
/// restart without asking again.
pub struct UpdatePrefs {
    /// Off until asked for.
    pub enabled: bool,
    /// Seconds since the epoch of the last check.
    pub last_check: u64,
    pub tag: Option<String>,
    pub html_url: Option<String>,
}

impl UpdatePrefs {
    /// A check is started when one is enabled and due: the time of this
    /// check is then remembered. Returns whether to start it.
    pub fn start_check_if_due(&mut self, due: bool, now: u64) -> (start: bool)
        ensures
            start == (old(self).enabled && due),
            start ==> final(self).last_check == now,
            !start ==> final(self).last_check == old(self).last_check,
            final(self).enabled == old(self).enabled,
            final(self).tag == old(self).tag,
            final(self).html_url == old(self).html_url,
    {
        if !self.enabled || !due {
            return false;
        }
        self.last_check = now;
        true
    }

    /// Keep a finished check's answer: the release it found (its tag and
    /// page), or nothing when it found none.
    pub fn absorb_check(&mut self, found: Option<(String, Option<String>)>)
        ensures
            match found {
                Some((tag, url)) => final(self).tag == Some(tag) && final(self).html_url == url,
                None => final(self).tag is None && final(self).html_url is None,
            },
            final(self).enabled == old(self).enabled,
            final(self).last_check == old(self).last_check,
    {
        match found {
            Some((tag, url)) => {
                self.tag = Some(tag);
                self.html_url = url;
            },
            None => {
                self.tag = None;
                self.html_url = None;
            },
        }
    }
}


/// The settings of the Display panel that are not floating point: switches,
/// the object display mode, the heatmap band, the volume resolution and
/// refresh, and the trails' mode and lifetime.
#[derive(Clone, Copy, Debug, PartialEq, Eq)]
pub struct DisplayChoices {
    pub effective_render_enabled: bool,
    pub objects_visible: bool,
    pub object_colors_enabled: bool,
    pub object_labels_enabled: bool,
    pub show_object_details: bool,
    pub speaker_labels_enabled: bool,
    pub speaker_band_bars_enabled: bool,
    pub speaker_face_listener_enabled: bool,
    pub speaker_volume_enabled: bool,
    pub all_bands: bool,
    pub global_enabled: bool,
    pub discontinuity_enabled: bool,
    pub object_field_enabled: bool,
    pub smooth: bool,
    pub trails_enabled: bool,
    pub object_display_mode: ObjectDisplayMode,
    /// The band the speaker heatmap shows, in the view and in the volume.
    pub heatmap_band_index: usize,
    pub volume_band_index: usize,
    /// Volume grid cells per axis.
    pub resolution: u32,
    pub refresh_ms: u32,
    pub trail_mode: TrailMode,
    pub trail_ttl_ms: u64,
}

/// The same settings as stored: each one optional, a missing one leaving the
/// current setting alone.
#[derive(Clone, Copy, Debug, Default, PartialEq, Eq)]
pub struct DisplayChoicePrefs {
    pub enabled: Option<bool>,
    pub objects_visible: Option<bool>,
    pub object_colors: Option<bool>,
    pub object_labels: Option<bool>,
    pub show_object_details: Option<bool>,
    pub speaker_labels: Option<bool>,
    pub speaker_bands: Option<bool>,
    pub speaker_face_listener: Option<bool>,
    pub speaker_heatmap_volume_enabled: Option<bool>,
    pub heatmap_all_bands: Option<bool>,
    pub global_energy_heatmap_enabled: Option<bool>,
    pub discontinuity_heatmap_enabled: Option<bool>,
    pub object_energy_heatmap_enabled: Option<bool>,
    pub volume_smooth_interpolation: Option<bool>,
    pub trails_enabled: Option<bool>,
    pub object_display_mode: Option<ObjectDisplayMode>,
    pub heatmap_band_index: Option<usize>,
    pub object_energy_heatmap_resolution: Option<u32>,
    pub volume_refresh_ms: Option<u32>,
    pub trail_mode: Option<TrailMode>,
    pub trail_duration_ms: Option<u64>,
}

/// A stored value, or the current one when none is stored.
pub open spec fn stored_or<T>(stored: Option<T>, current: T) -> T {
    match stored {
        Some(v) => v,
        None => current,
    }
}

pub open spec fn clamp_u32(v: u32, lo: u32, hi: u32) -> u32 {
    if v < lo {
        lo
    } else if v > hi {
        hi
    } else {
        v
    }
}

fn restore<T: Copy>(stored: Option<T>, current: T) -> (r: T)
    ensures
        r == stored_or(stored, current),
{
    match stored {
        Some(v) => v,
        None => current,
    }
}

fn clamp_exec(v: u32, lo: u32, hi: u32) -> (r: u32)
    requires
        lo <= hi,
    ensures
        r == clamp_u32(v, lo, hi),
{
    if v < lo {
        lo
    } else if v > hi {
        hi
    } else {
        v
    }
}

/// The settings after restoring the stored ones over `c`.
pub open spec fn applied(p: DisplayChoicePrefs, c: DisplayChoices) -> DisplayChoices {
    DisplayChoices {
        effective_render_enabled: stored_or(p.enabled, c.effective_render_enabled),
        objects_visible: stored_or(p.objects_visible, c.objects_visible),
        object_colors_enabled: stored_or(p.object_colors, c.object_colors_enabled),
        object_labels_enabled: stored_or(p.object_labels, c.object_labels_enabled),
        show_object_details: stored_or(p.show_object_details, c.show_object_details),
        speaker_labels_enabled: stored_or(p.speaker_labels, c.speaker_labels_enabled),
        speaker_band_bars_enabled: stored_or(p.speaker_bands, c.speaker_band_bars_enabled),
        speaker_face_listener_enabled: stored_or(p.speaker_face_listener, c.speaker_face_listener_enabled),
        speaker_volume_enabled: stored_or(p.speaker_heatmap_volume_enabled, c.speaker_volume_enabled),
        all_bands: stored_or(p.heatmap_all_bands, c.all_bands),
        global_enabled: stored_or(p.global_energy_heatmap_enabled, c.global_enabled),
        discontinuity_enabled: stored_or(p.discontinuity_heatmap_enabled, c.discontinuity_enabled),
        object_field_enabled: stored_or(p.object_energy_heatmap_enabled, c.object_field_enabled),
        smooth: stored_or(p.volume_smooth_interpolation, c.smooth),
        trails_enabled: stored_or(p.trails_enabled, c.trails_enabled),
        object_display_mode: stored_or(p.object_display_mode, c.object_display_mode),
        heatmap_band_index: stored_or(p.heatmap_band_index, c.heatmap_band_index),
        volume_band_index: stored_or(p.heatmap_band_index, c.volume_band_index),
        resolution: match p.object_energy_heatmap_resolution {
            Some(v) => clamp_u32(v, 8, 64),
            None => c.resolution,
        },
        refresh_ms: match p.volume_refresh_ms {
            Some(v) => clamp_u32(v, 40, 500),
            None => c.refresh_ms,
        },
        trail_mode: stored_or(p.trail_mode, c.trail_mode),
        trail_ttl_ms: match p.trail_duration_ms {
            Some(ms) => if ms < 500 {
                500
            } else {
                ms
            },
            None => c.trail_ttl_ms,
        },
    }
}

fn restore_clamped(stored: Option<u32>, lo: u32, hi: u32, current: u32) -> (r: u32)
    requires
        lo <= hi,
    ensures
        r == match stored {
            Some(v) => clamp_u32(v, lo, hi),
            None => current,
        },
{
    match stored {
        Some(v) => clamp_exec(v, lo, hi),
        None => current,
    }
}

/// A stored trail lifetime, at least 500 ms.
fn restore_ttl(stored: Option<u64>, current: u64) -> (r: u64)
    ensures
        r == match stored {
            Some(ms) => if ms < 500 {
                500
            } else {
                ms
            },
            None => current,
        },
{
    match stored {
        Some(ms) => if ms < 500 {
            500
        } else {
            ms
        },
        None => current,
    }
}

/// Every stored setting that is present wins over the current one: a stored
/// switch, mode or band is taken as it is (the band for the view and the
/// volume alike), a stored resolution or refresh is taken when it is within
/// its bounds and brought to the nearest bound otherwise, and a stored trail
/// lifetime is taken when it is at least 500 ms and raised to 500 otherwise.
pub proof fn lemma_stored_settings_win(p: DisplayChoicePrefs, c: DisplayChoices)
    ensures
        p.enabled matches Some(v) ==> applied(p, c).effective_render_enabled == v,
        p.objects_visible matches Some(v) ==> applied(p, c).objects_visible == v,
        p.object_colors matches Some(v) ==> applied(p, c).object_colors_enabled == v,
        p.object_labels matches Some(v) ==> applied(p, c).object_labels_enabled == v,
        p.show_object_details matches Some(v) ==> applied(p, c).show_object_details == v,
        p.speaker_labels matches Some(v) ==> applied(p, c).speaker_labels_enabled == v,
        p.speaker_bands matches Some(v) ==> applied(p, c).speaker_band_bars_enabled == v,
        p.speaker_face_listener matches Some(v) ==> applied(p, c).speaker_face_listener_enabled == v,
        p.speaker_heatmap_volume_enabled matches Some(v) ==> applied(p, c).speaker_volume_enabled == v,
        p.heatmap_all_bands matches Some(v) ==> applied(p, c).all_bands == v,
        p.global_energy_heatmap_enabled matches Some(v) ==> applied(p, c).global_enabled == v,
        p.discontinuity_heatmap_enabled matches Some(v) ==> applied(p, c).discontinuity_enabled == v,
        p.object_energy_heatmap_enabled matches Some(v) ==> applied(p, c).object_field_enabled == v,
        p.volume_smooth_interpolation matches Some(v) ==> applied(p, c).smooth == v,
        p.trails_enabled matches Some(v) ==> applied(p, c).trails_enabled == v,
        p.object_display_mode matches Some(v) ==> applied(p, c).object_display_mode == v,
        p.trail_mode matches Some(v) ==> applied(p, c).trail_mode == v,
        p.heatmap_band_index matches Some(v) ==> applied(p, c).heatmap_band_index == v
            && applied(p, c).volume_band_index == v,
        p.object_energy_heatmap_resolution matches Some(v) ==> {
            &&& 8 <= applied(p, c).resolution <= 64
            &&& 8 <= v <= 64 ==> applied(p, c).resolution == v
            &&& v < 8 ==> applied(p, c).resolution == 8
            &&& v > 64 ==> applied(p, c).resolution == 64
        },
        p.volume_refresh_ms matches Some(v) ==> {
            &&& 40 <= applied(p, c).refresh_ms <= 500
            &&& 40 <= v <= 500 ==> applied(p, c).refresh_ms == v
            &&& v < 40 ==> applied(p, c).refresh_ms == 40
            &&& v > 500 ==> applied(p, c).refresh_ms == 500
        },
        p.trail_duration_ms matches Some(v) ==> {
            &&& applied(p, c).trail_ttl_ms >= 500
            &&& v >= 500 ==> applied(p, c).trail_ttl_ms == v
            &&& v < 500 ==> applied(p, c).trail_ttl_ms == 500
        },
{
}

/// A setting with nothing stored for it keeps its current value.
pub proof fn lemma_missing_settings_stay(p: DisplayChoicePrefs, c: DisplayChoices)
    ensures
        p.enabled is None ==> applied(p, c).effective_render_enabled == c.effective_render_enabled,
        p.objects_visible is None ==> applied(p, c).objects_visible == c.objects_visible,
        p.object_colors is None ==> applied(p, c).object_colors_enabled == c.object_colors_enabled,
        p.object_labels is None ==> applied(p, c).object_labels_enabled == c.object_labels_enabled,
        p.show_object_details is None ==> applied(p, c).show_object_details == c.show_object_details,
        p.speaker_labels is None ==> applied(p, c).speaker_labels_enabled == c.speaker_labels_enabled,
        p.speaker_bands is None ==> applied(p, c).speaker_band_bars_enabled == c.speaker_band_bars_enabled,
        p.speaker_face_listener is None ==> applied(p, c).speaker_face_listener_enabled
            == c.speaker_face_listener_enabled,
        p.speaker_heatmap_volume_enabled is None ==> applied(p, c).speaker_volume_enabled
            == c.speaker_volume_enabled,
        p.heatmap_all_bands is None ==> applied(p, c).all_bands == c.all_bands,
        p.global_energy_heatmap_enabled is None ==> applied(p, c).global_enabled == c.global_enabled,
        p.discontinuity_heatmap_enabled is None ==> applied(p, c).discontinuity_enabled
            == c.discontinuity_enabled,
        p.object_energy_heatmap_enabled is None ==> applied(p, c).object_field_enabled
            == c.object_field_enabled,
        p.volume_smooth_interpolation is None ==> applied(p, c).smooth == c.smooth,
        p.trails_enabled is None ==> applied(p, c).trails_enabled == c.trails_enabled,
        p.object_display_mode is None ==> applied(p, c).object_display_mode == c.object_display_mode,
        p.trail_mode is None ==> applied(p, c).trail_mode == c.trail_mode,
        p.heatmap_band_index is None ==> applied(p, c).heatmap_band_index == c.heatmap_band_index
            && applied(p, c).volume_band_index == c.volume_band_index,
        p.object_energy_heatmap_resolution is None ==> applied(p, c).resolution == c.resolution,
        p.volume_refresh_ms is None ==> applied(p, c).refresh_ms == c.refresh_ms,
        p.trail_duration_ms is None ==> applied(p, c).trail_ttl_ms == c.trail_ttl_ms,
{
}

/// Restoring the same stored settings twice changes nothing more.
pub proof fn lemma_restoring_twice_is_restoring_once(p: DisplayChoicePrefs, c: DisplayChoices)
    ensures
        applied(p, applied(p, c)) == applied(p, c),
{
}

impl DisplayChoicePrefs {
    /// Restore the stored settings over the current ones: a missing one leaves
    /// the default alone; the volume resolution is kept to 8..=64 cells, the
    /// refresh to 40..=500 ms, and a trail lives at least 500 ms; a stored
    /// band applies to the view and the volume alike.
    #[verifier::spinoff_prover]
    pub fn apply(&self, s: &mut DisplayChoices)
        ensures
            *final(s) == applied(*self, *old(s)),
    {
        let r = self.restored(*s);
        *s = r;
    }

    fn restored(&self, cur: DisplayChoices) -> (r: DisplayChoices)
        ensures
            r == applied(*self, cur),
    {
        let band = restore(self.heatmap_band_index, cur.heatmap_band_index);
        let volume_band = restore(self.heatmap_band_index, cur.volume_band_index);
        let resolution = restore_clamped(self.object_energy_heatmap_resolution, 8, 64, cur.resolution);
        let refresh_ms = restore_clamped(self.volume_refresh_ms, 40, 500, cur.refresh_ms);
        let trail_ttl_ms = restore_ttl(self.trail_duration_ms, cur.trail_ttl_ms);
        DisplayChoices {
            effective_render_enabled: restore(self.enabled, cur.effective_render_enabled),
            objects_visible: restore(self.objects_visible, cur.objects_visible),
            object_colors_enabled: restore(self.object_colors, cur.object_colors_enabled),
            object_labels_enabled: restore(self.object_labels, cur.object_labels_enabled),
            show_object_details: restore(self.show_object_details, cur.show_object_details),
            speaker_labels_enabled: restore(self.speaker_labels, cur.speaker_labels_enabled),
            speaker_band_bars_enabled: restore(self.speaker_bands, cur.speaker_band_bars_enabled),
            speaker_face_listener_enabled: restore(self.speaker_face_listener, cur.speaker_face_listener_enabled),
            speaker_volume_enabled: restore(self.speaker_heatmap_volume_enabled, cur.speaker_volume_enabled),
            all_bands: restore(self.heatmap_all_bands, cur.all_bands),
            global_enabled: restore(self.global_energy_heatmap_enabled, cur.global_enabled),
            discontinuity_enabled: restore(self.discontinuity_heatmap_enabled, cur.discontinuity_enabled),
            object_field_enabled: restore(self.object_energy_heatmap_enabled, cur.object_field_enabled),
            smooth: restore(self.volume_smooth_interpolation, cur.smooth),
            trails_enabled: restore(self.trails_enabled, cur.trails_enabled),
            object_display_mode: restore(self.object_display_mode, cur.object_display_mode),
            trail_mode: restore(self.trail_mode, cur.trail_mode),
            heatmap_band_index: band,
            volume_band_index: volume_band,
            resolution,
            refresh_ms,
            trail_ttl_ms,
        }
    }
}

} // verus!
