//! FL Studio import: the shapes a parse of a `.flp` file yields, the table
//! that maps FL's own plug-ins to Hardwave's, and the report the user reads
//! after an import.

use vstd::prelude::*;
use crate::seqs::{first_match, lemma_first_match_at, lemma_first_match_none};
use crate::text::{decimal, push_decimal, str_eq};

verus! {

/// A channel-rack channel read from the file.
#[derive(Debug)]
pub struct FlChannel {
    pub name: String,
    pub sample_path: Option<String>,
    pub plugin_name: Option<String>,
    pub pattern_steps: Vec<bool>,
}

/// A piano-roll note read from the file.
#[derive(Debug, Clone, Copy, PartialEq, Eq, Structural)]
pub struct FlNote {
    pub tick: u64,
    pub length_ticks: u64,
    pub pitch: u8,
    pub velocity: u8,
}

/// What a playlist clip holds.
#[derive(Debug)]
pub enum FlClipContent {
    Pattern { pattern_index: u32 },
    AudioSample { sample_path: String },
    Automation { target: String },
}

/// A playlist clip read from the file.
#[derive(Debug)]
pub struct FlPlaylistClip {
    pub track_index: u32,
    pub start_tick: u64,
    pub length_ticks: u64,
    pub content: FlClipContent,
}

/// What the import summary reads of a parsed project: its tempo as the
/// text the report prints, its time signature, channels, notes grouped by
/// channel, playlist clips and how many mixer tracks it has.
#[derive(Debug)]
pub struct FlProjectOutline {
    pub bpm_text: String,
    pub time_sig_numerator: u8,
    pub time_sig_denominator: u8,
    pub channels: Vec<FlChannel>,
    pub notes: Vec<(u32, Vec<FlNote>)>,
    pub playlist_clips: Vec<FlPlaylistClip>,
    pub mixer_track_count: usize,
}

/// An FL plug-in and its Hardwave equivalent; `None` means there is none.
#[derive(Debug)]
pub struct PluginMap {
    pub from_fl: String,
    pub to_hardwave: Option<String>,
}

/// The table by characters.
pub open spec fn plugin_map_view(m: PluginMap) -> (Seq<char>, Option<Seq<char>>) {
    (m.from_fl@, match m.to_hardwave {
        Some(t) => Some(t@),
        None => None,
    })
}

/// The built-in table: FL natives and the closest Hardwave plug-in.
pub open spec fn default_mappings_spec() -> Seq<(Seq<char>, Option<Seq<char>>)> {
    seq![
        ("Sytrus"@, Some("hardwave-fm"@)),
        ("3xOsc"@, Some("hardwave-subtractive"@)),
        ("FPC"@, Some("hardwave-drum-machine"@)),
        ("Fruity Kick"@, Some("hardwave-drum-synth"@)),
        ("Fruity Limiter"@, Some("hardwave-limiter"@)),
        ("Fruity Parametric EQ 2"@, Some("hardwave-parametric-eq"@)),
        ("Fruity Delay 3"@, Some("hardwave-delay"@)),
        ("Fruity Reverb 2"@, Some("hardwave-reverb"@)),
        ("Harmor"@, None),
    ]
}

fn mapping(from_fl: &str, to_hardwave: Option<&str>) -> (m: PluginMap)
    ensures
        plugin_map_view(m) == (from_fl@, match to_hardwave {
            Some(t) => Some(t@),
            None => None::<Seq<char>>,
        }),
{
    PluginMap {
        from_fl: String::from_str(from_fl),
        to_hardwave: match to_hardwave {
            Some(t) => Some(String::from_str(t)),
            None => None,
        },
    }
}

/// The built-in mapping table.
pub fn default_plugin_mappings() -> (v: Vec<PluginMap>)
    ensures
        v@.map_values(|m: PluginMap| plugin_map_view(m)) == default_mappings_spec(),
{
    let mut v: Vec<PluginMap> = Vec::new();
    v.push(mapping("Sytrus", Some("hardwave-fm")));
    v.push(mapping("3xOsc", Some("hardwave-subtractive")));
    v.push(mapping("FPC", Some("hardwave-drum-machine")));
    v.push(mapping("Fruity Kick", Some("hardwave-drum-synth")));
    v.push(mapping("Fruity Limiter", Some("hardwave-limiter")));
    v.push(mapping("Fruity Parametric EQ 2", Some("hardwave-parametric-eq")));
    v.push(mapping("Fruity Delay 3", Some("hardwave-delay")));
    v.push(mapping("Fruity Reverb 2", Some("hardwave-reverb")));
    v.push(mapping("Harmor", None));
    assert(v@.map_values(|m: PluginMap| plugin_map_view(m)) =~= default_mappings_spec());
    v
}

/// How serious a report row is.
#[derive(Debug, Clone, Copy, PartialEq, Eq, Structural)]
pub enum FindingSeverity {
    Info,
    Warning,
    Error,
}

/// What part of the project a report row is about.
#[derive(Debug, Clone, Copy, PartialEq, Eq, Structural)]
pub enum FindingCategory {
    ChannelRack,
    PianoRoll,
    Playlist,
    Mixer,
    Automation,
    Plugin,
    Tempo,
    Unsupported,
}

/// One row of the import report.
#[derive(Debug)]
pub struct ImportFinding {
    pub severity: FindingSeverity,
    pub category: FindingCategory,
    pub message: String,
}

/// A report row by the characters of its message.
pub struct FindingView {
    pub severity: FindingSeverity,
    pub category: FindingCategory,
    pub message: Seq<char>,
}

impl View for ImportFinding {
    type V = FindingView;

    open spec fn view(&self) -> FindingView {
        FindingView { severity: self.severity, category: self.category, message: self.message@ }
    }
}

/// What was imported and what was not.
#[derive(Debug)]
pub struct ImportReport {
    pub findings: Vec<ImportFinding>,
    pub imported_channels: u32,
    pub imported_notes: u32,
    pub imported_playlist_clips: u32,
    pub imported_mixer_tracks: u32,
    pub imported_automation_clips: u32,
    pub skipped_plugins: Vec<String>,
}

/// The rows of a report by their views.
pub open spec fn finding_views(f: Seq<ImportFinding>) -> Seq<FindingView> {
    f.map_values(|x: ImportFinding| x@)
}

/// Texts by their characters.
pub open spec fn text_views(s: Seq<String>) -> Seq<Seq<char>> {
    s.map_values(|x: String| x@)
}

/// Two reports count the same imported items.
pub open spec fn same_counts(a: ImportReport, b: ImportReport) -> bool {
    &&& a.imported_channels == b.imported_channels
    &&& a.imported_notes == b.imported_notes
    &&& a.imported_playlist_clips == b.imported_playlist_clips
    &&& a.imported_mixer_tracks == b.imported_mixer_tracks
    &&& a.imported_automation_clips == b.imported_automation_clips
}

/// Rows of the given severity.
pub open spec fn of_severity(f: Seq<FindingView>, severity: FindingSeverity) -> Seq<FindingView> {
    f.filter(|x: FindingView| x.severity == severity)
}

impl Default for ImportReport {
    /// An empty report: no rows, nothing counted, nothing skipped.
    fn default() -> (r: ImportReport)
        ensures
            r.findings@.len() == 0,
            r.imported_channels == 0,
            r.imported_notes == 0,
            r.imported_playlist_clips == 0,
            r.imported_mixer_tracks == 0,
            r.imported_automation_clips == 0,
            r.skipped_plugins@.len() == 0,
    {
        ImportReport {
            findings: Vec::new(),
            imported_channels: 0,
            imported_notes: 0,
            imported_playlist_clips: 0,
            imported_mixer_tracks: 0,
            imported_automation_clips: 0,
            skipped_plugins: Vec::new(),
        }
    }
}

impl ImportReport {
    fn add(&mut self, severity: FindingSeverity, category: FindingCategory, message: String)
        ensures
            finding_views(final(self).findings@) == finding_views(old(self).findings@).push(
                FindingView { severity, category, message: message@ },
            ),
            final(self).skipped_plugins@ == old(self).skipped_plugins@,
            same_counts(*final(self), *old(self)),
    {
        let ghost before = self.findings@;
        self.findings.push(ImportFinding { severity, category, message });
        assert(finding_views(self.findings@) =~= finding_views(before).push(
            FindingView { severity, category, message: message@ },
        ));
    }

    /// Adds an informational row.
    pub fn info(&mut self, category: FindingCategory, message: &str)
        ensures
            finding_views(final(self).findings@) == finding_views(old(self).findings@).push(
                FindingView { severity: FindingSeverity::Info, category, message: message@ },
            ),
            final(self).skipped_plugins@ == old(self).skipped_plugins@,
            same_counts(*final(self), *old(self)),
    {
        self.add(FindingSeverity::Info, category, String::from_str(message));
    }

    /// Adds a warning row.
    pub fn warn(&mut self, category: FindingCategory, message: &str)
        ensures
            finding_views(final(self).findings@) == finding_views(old(self).findings@).push(
                FindingView { severity: FindingSeverity::Warning, category, message: message@ },
            ),
            final(self).skipped_plugins@ == old(self).skipped_plugins@,
            same_counts(*final(self), *old(self)),
    {
        self.add(FindingSeverity::Warning, category, String::from_str(message));
    }

    /// Adds an error row.
    pub fn error(&mut self, category: FindingCategory, message: &str)
        ensures
            finding_views(final(self).findings@) == finding_views(old(self).findings@).push(
                FindingView { severity: FindingSeverity::Error, category, message: message@ },
            ),
            final(self).skipped_plugins@ == old(self).skipped_plugins@,
            same_counts(*final(self), *old(self)),
    {
        self.add(FindingSeverity::Error, category, String::from_str(message));
    }

    /// Whether any row is an error.
    pub fn has_errors(&self) -> (r: bool)
        ensures
            r == exists|k: int| 0 <= k < self.findings@.len() && (#[trigger] self.findings@[k]).severity == FindingSeverity::Error,
    {
        let mut i: usize = 0;
        while i < self.findings.len()
            invariant
                0 <= i <= self.findings@.len(),
                forall|k: int| 0 <= k < i ==> (#[trigger] self.findings@[k]).severity != FindingSeverity::Error,
            decreases self.findings@.len() - i,
        {
            if self.findings[i].severity == FindingSeverity::Error {
                return true;
            }
            i = i + 1;
        }
        false
    }

    /// How many rows are warnings.
    pub fn warning_count(&self) -> (n: usize)
        ensures
            n == of_severity(finding_views(self.findings@), FindingSeverity::Warning).len(),
    {
        let ghost all = finding_views(self.findings@);
        let mut n: usize = 0;
        let mut i: usize = 0;
        while i < self.findings.len()
            invariant
                0 <= i <= self.findings@.len(),
                all == finding_views(self.findings@),
                all.len() == self.findings@.len(),
                n == of_severity(all.take(i as int), FindingSeverity::Warning).len(),
                n <= i,
            decreases self.findings@.len() - i,
        {
            proof {
                reveal_with_fuel(Seq::filter, 1);
                assert(all.take(i as int + 1).drop_last() =~= all.take(i as int));
            }
            if self.findings[i].severity == FindingSeverity::Warning {
                n = n + 1;
            }
            i = i + 1;
        }
        assert(all.take(i as int) =~= all);
        n
    }
}

/// How an FL plug-in maps.
#[derive(Debug)]
pub enum PluginMapResult {
    Equivalent(String),
    NoEquivalent,
    Unknown,
}

/// The first table row for `name` decides: a target is an equivalent, a
/// row without one has no equivalent, and a plug-in not in the table is
/// unknown.
pub open spec fn map_plugin_spec(name: Seq<char>, table: Seq<(Seq<char>, Option<Seq<char>>)>) -> Option<Option<Seq<char>>> {
    match first_match(table, |row: (Seq<char>, Option<Seq<char>>)| row.0 == name) {
        Some(k) => Some(table[k].1),
        None => None,
    }
}

/// The table by characters.
pub open spec fn table_view(m: Seq<PluginMap>) -> Seq<(Seq<char>, Option<Seq<char>>)> {
    m.map_values(|x: PluginMap| plugin_map_view(x))
}

/// Looks an FL plug-in up in the table.
pub fn map_plugin(fl_name: &str, mappings: &[PluginMap]) -> (r: PluginMapResult)
    ensures
        match map_plugin_spec(fl_name@, table_view(mappings@)) {
            Some(Some(t)) => r matches PluginMapResult::Equivalent(s) && s@ == t,
            Some(None) => r is NoEquivalent,
            None => r is Unknown,
        },
{
    let ghost table = table_view(mappings@);
    let mut i: usize = 0;
    while i < mappings.len()
        invariant
            0 <= i <= mappings@.len(),
            table == table_view(mappings@),
            table.len() == mappings@.len(),
            forall|k: int| 0 <= k < i ==> (#[trigger] table[k]).0 != fl_name@,
        decreases mappings@.len() - i,
    {
        if str_eq(mappings[i].from_fl.as_str(), fl_name) {
            proof {
                lemma_first_match_at(table, |row: (Seq<char>, Option<Seq<char>>)| row.0 == fl_name@, i as int);
            }
            return match &mappings[i].to_hardwave {
                Some(target) => PluginMapResult::Equivalent(target.clone()),
                None => PluginMapResult::NoEquivalent,
            };
        }
        i = i + 1;
    }
    proof {
        lemma_first_match_none(table, |row: (Seq<char>, Option<Seq<char>>)| row.0 == fl_name@);
    }
    PluginMapResult::Unknown
}

/// The report rows for channels' plug-ins, in channel order: a mapped
/// plug-in is noted, one without an equivalent or not in the table is
/// warned about; channels without a plug-in add nothing.
pub open spec fn plugin_findings(
    plugins: Seq<Option<Seq<char>>>,
    table: Seq<(Seq<char>, Option<Seq<char>>)>,
) -> Seq<FindingView>
    decreases plugins.len(),
{
    if plugins.len() == 0 {
        Seq::empty()
    } else {
        let earlier = plugin_findings(plugins.drop_last(), table);
        match plugins.last() {
            None => earlier,
            Some(p) => earlier.push(
                match map_plugin_spec(p, table) {
                    Some(Some(target)) => FindingView {
                        severity: FindingSeverity::Info,
                        category: FindingCategory::Plugin,
                        message: "Mapped "@ + p + " → "@ + target,
                    },
                    Some(None) => FindingView {
                        severity: FindingSeverity::Warning,
                        category: FindingCategory::Plugin,
                        message: p + " has no Hardwave equivalent — channel muted until you assign a plugin"@,
                    },
                    None => FindingView {
                        severity: FindingSeverity::Warning,
                        category: FindingCategory::Unsupported,
                        message: "Unknown plugin reference: "@ + p + " (skipped)"@,
                    },
                },
            ),
        }
    }
}

/// The plug-ins an import leaves out: those without an equivalent or not
/// in the table, in channel order.
pub open spec fn skipped_plugins_spec(
    plugins: Seq<Option<Seq<char>>>,
    table: Seq<(Seq<char>, Option<Seq<char>>)>,
) -> Seq<Seq<char>>
    decreases plugins.len(),
{
    if plugins.len() == 0 {
        Seq::empty()
    } else {
        let earlier = skipped_plugins_spec(plugins.drop_last(), table);
        match plugins.last() {
            Some(p) if !(map_plugin_spec(p, table) matches Some(Some(_))) => earlier.push(p),
            _ => earlier,
        }
    }
}

/// Each channel's plug-in name, if it has one.
pub open spec fn channel_plugins(channels: Seq<FlChannel>) -> Seq<Option<Seq<char>>> {
    channels.map_values(|c: FlChannel| match c.plugin_name {
        Some(p) => Some(p@),
        None => None,
    })
}

/// The total number of notes over the per-channel groups.
pub open spec fn note_total(groups: Seq<(u32, Vec<FlNote>)>) -> nat
    decreases groups.len(),
{
    if groups.len() == 0 {
        0
    } else {
        note_total(groups.drop_last()) + groups.last().1@.len()
    }
}

/// How many playlist clips hold automation.
pub open spec fn automation_clip_total(clips: Seq<FlPlaylistClip>) -> nat {
    clips.filter(|c: FlPlaylistClip| c.content is Automation).len()
}

/// The tempo line: "Tempo <bpm> BPM, <num>/<den>".
pub open spec fn tempo_line(bpm_text: Seq<char>, num: u8, den: u8) -> Seq<char> {
    "Tempo "@ + bpm_text + " BPM, "@ + decimal(num as nat) + "/"@ + decimal(den as nat)
}

fn count_notes(groups: &Vec<(u32, Vec<FlNote>)>) -> (n: u32)
    requires
        note_total(groups@) <= u32::MAX,
    ensures
        n == note_total(groups@),
{
    let mut n: u32 = 0;
    let mut i: usize = 0;
    while i < groups.len()
        invariant
            0 <= i <= groups@.len(),
            note_total(groups@) <= u32::MAX,
            n == note_total(groups@.take(i as int)),
        decreases groups@.len() - i,
    {
        proof {
            assert(groups@.take(i as int + 1).drop_last() =~= groups@.take(i as int));
            lemma_note_total_prefix(groups@, i as int + 1);
        }
        n = n + groups[i].1.len() as u32;
        i = i + 1;
    }
    assert(groups@.take(i as int) =~= groups@);
    n
}

proof fn lemma_note_total_prefix(groups: Seq<(u32, Vec<FlNote>)>, k: int)
    requires
        0 <= k <= groups.len(),
    ensures
        note_total(groups.take(k)) <= note_total(groups),
    decreases groups.len(),
{
    if k < groups.len() {
        assert(groups.drop_last().take(k) =~= groups.take(k));
        lemma_note_total_prefix(groups.drop_last(), k);
    } else {
        assert(groups.take(k) =~= groups);
    }
}

fn count_automation(clips: &Vec<FlPlaylistClip>) -> (n: usize)
    ensures
        n == automation_clip_total(clips@),
{
    let mut n: usize = 0;
    let mut i: usize = 0;
    while i < clips.len()
        invariant
            0 <= i <= clips@.len(),
            n == clips@.take(i as int).filter(|c: FlPlaylistClip| c.content is Automation).len(),
            n <= i,
        decreases clips@.len() - i,
    {
        proof {
            reveal_with_fuel(Seq::filter, 1);
            assert(clips@.take(i as int + 1).drop_last() =~= clips@.take(i as int));
        }
        if let FlClipContent::Automation { .. } = &clips[i].content {
            n = n + 1;
        }
        i = i + 1;
    }
    assert(clips@.take(i as int) =~= clips@);
    n
}

/// Summarises an import for the user: the counts of what came in (each
/// count truncated to 32 bits as the report stores it), a tempo row, then
/// one row per channel plug-in, with the plug-ins left out listed.
pub fn summarize_import(project: &FlProjectOutline, mappings: &[PluginMap]) -> (r: ImportReport)
    requires
        note_total(project.notes@) <= u32::MAX,
    ensures
        r.imported_channels == project.channels@.len() as u32,
        r.imported_notes == note_total(project.notes@),
        r.imported_playlist_clips == project.playlist_clips@.len() as u32,
        r.imported_mixer_tracks == project.mixer_track_count as u32,
        r.imported_automation_clips == automation_clip_total(project.playlist_clips@) as u32,
        finding_views(r.findings@) == seq![FindingView {
            severity: FindingSeverity::Info,
            category: FindingCategory::Tempo,
            message: tempo_line(project.bpm_text@, project.time_sig_numerator, project.time_sig_denominator),
        }] + plugin_findings(channel_plugins(project.channels@), table_view(mappings@)),
        text_views(r.skipped_plugins@) == skipped_plugins_spec(channel_plugins(project.channels@), table_view(mappings@)),
{
    let mut report = ImportReport::default();
    report.imported_channels = project.channels.len() as u32;
    report.imported_notes = count_notes(&project.notes);
    report.imported_playlist_clips = project.playlist_clips.len() as u32;
    report.imported_mixer_tracks = project.mixer_track_count as u32;
    report.imported_automation_clips = count_automation(&project.playlist_clips) as u32;
    let mut tempo = String::from_str("Tempo ");
    tempo.append(project.bpm_text.as_str());
    tempo.append(" BPM, ");
    push_decimal(&mut tempo, project.time_sig_numerator as u64);
    tempo.append("/");
    push_decimal(&mut tempo, project.time_sig_denominator as u64);
    report.info(FindingCategory::Tempo, tempo.as_str());
    let ghost head = finding_views(report.findings@);
    assert(text_views(report.skipped_plugins@) =~= Seq::<Seq<char>>::empty());
    let ghost plugins = channel_plugins(project.channels@);
    let ghost table = table_view(mappings@);
    let mut i: usize = 0;
    while i < project.channels.len()
        invariant
            0 <= i <= project.channels@.len(),
            plugins == channel_plugins(project.channels@),
            plugins.len() == project.channels@.len(),
            table == table_view(mappings@),
            finding_views(report.findings@) == head + plugin_findings(plugins.take(i as int), table),
            text_views(report.skipped_plugins@) == skipped_plugins_spec(plugins.take(i as int), table),
            report.imported_channels == project.channels@.len() as u32,
            report.imported_notes == note_total(project.notes@),
            report.imported_playlist_clips == project.playlist_clips@.len() as u32,
            report.imported_mixer_tracks == project.mixer_track_count as u32,
            report.imported_automation_clips == automation_clip_total(project.playlist_clips@) as u32,
        decreases project.channels@.len() - i,
    {
        proof {
            assert(plugins.take(i as int + 1).drop_last() =~= plugins.take(i as int));
            assert(plugins.take(i as int + 1).last() == plugins[i as int]);
        }
        if let Some(plugin) = &project.channels[i].plugin_name {
            let ghost before_skipped = report.skipped_plugins@;
            match map_plugin(plugin.as_str(), mappings) {
                PluginMapResult::Equivalent(target) => {
                    let mut m = String::from_str("Mapped ");
                    m.append(plugin.as_str());
                    m.append(" → ");
                    m.append(target.as_str());
                    report.info(FindingCategory::Plugin, m.as_str());
                },
                PluginMapResult::NoEquivalent => {
                    let mut m = plugin.clone();
                    m.append(" has no Hardwave equivalent — channel muted until you assign a plugin");
                    report.warn(FindingCategory::Plugin, m.as_str());
                    report.skipped_plugins.push(plugin.clone());
                    assert(text_views(report.skipped_plugins@) =~= text_views(before_skipped).push(plugin@));
                },
                PluginMapResult::Unknown => {
                    let mut m = String::from_str("Unknown plugin reference: ");
                    m.append(plugin.as_str());
                    m.append(" (skipped)");
                    report.warn(FindingCategory::Unsupported, m.as_str());
                    report.skipped_plugins.push(plugin.clone());
                    assert(text_views(report.skipped_plugins@) =~= text_views(before_skipped).push(plugin@));
                },
            }
        }
        i = i + 1;
    }
    assert(plugins.take(i as int) =~= plugins);
    report
}

/// An import summary never holds an error row, and it warns exactly once
/// for each plug-in it leaves out.
pub proof fn lemma_summary_warns_per_skipped_plugin(
    plugins: Seq<Option<Seq<char>>>,
    table: Seq<(Seq<char>, Option<Seq<char>>)>,
)
    ensures
        forall|k: int| 0 <= k < plugin_findings(plugins, table).len()
            ==> (#[trigger] plugin_findings(plugins, table)[k]).severity != FindingSeverity::Error,
        of_severity(plugin_findings(plugins, table), FindingSeverity::Warning).len()
            == skipped_plugins_spec(plugins, table).len(),
    decreases plugins.len(),
{
    reveal_with_fuel(Seq::filter, 1);
    if plugins.len() > 0 {
        lemma_summary_warns_per_skipped_plugin(plugins.drop_last(), table);
        let earlier = plugin_findings(plugins.drop_last(), table);
        match plugins.last() {
            None => {},
            Some(p) => {
                let now = plugin_findings(plugins, table);
                assert(now.drop_last() =~= earlier);
                assert forall|k: int| 0 <= k < now.len() implies (#[trigger] now[k]).severity != FindingSeverity::Error by {
                    if k < earlier.len() {
                        assert(now[k] == earlier[k]);
                    }
                }
            },
        }
    }
}

/// The tempo row leads the summary and is not a warning, so the summary's
/// warnings are its plug-in warnings.
pub proof fn lemma_tempo_row_is_informational(head: FindingView, rest: Seq<FindingView>)
    requires
        head.severity == FindingSeverity::Info,
    ensures
        of_severity(seq![head] + rest, FindingSeverity::Warning).len() == of_severity(rest, FindingSeverity::Warning).len(),
    decreases rest.len(),
{
    reveal_with_fuel(Seq::filter, 1);
    let all = seq![head] + rest;
    if rest.len() == 0 {
        assert(all.drop_last() =~= Seq::<FindingView>::empty());
        assert(of_severity(Seq::<FindingView>::empty(), FindingSeverity::Warning).len() == 0);
    } else {
        assert(all.drop_last() =~= seq![head] + rest.drop_last());
        lemma_tempo_row_is_informational(head, rest.drop_last());
    }
}

} // verus!
