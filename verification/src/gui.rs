//! Plain state of the desktop viewer: view and render modes, the inspector's
//! tabs, the panel regions, the persistent app state, opening a world
//! directory, and the star browser's filter logic.

use vstd::prelude::*;
use std::path::PathBuf;
use crate::spectral::{IndexedSpectralType, SpectralClass, class_letter};
use crate::text::{ascii_lower, ascii_lowercase, chars_of, decimal, decimal_string, lower_char, push_decimal};

verus! {

// ---------------------------------------------------------------------------
// View and render modes
// ---------------------------------------------------------------------------

/// Which view the central region shows.
#[derive(Debug, Clone, Copy, PartialEq, Eq, Structural, Hash)]
pub enum ViewMode {
    /// No world loaded yet; the welcome screen.
    Empty,
    /// Orbital diagram of the star system.
    System,
    /// Rendered globe of the selected planet.
    Globe,
    /// Regional hex-detail view.
    Detail,
}

impl Default for ViewMode {
    fn default() -> (r: Self)
        ensures
            r == ViewMode::Empty,
    {
        ViewMode::Empty
    }
}

/// Display label of a view mode.
pub open spec fn view_label(m: ViewMode) -> Seq<char> {
    match m {
        ViewMode::Empty => "Welcome"@,
        ViewMode::System => "System"@,
        ViewMode::Globe => "Globe"@,
        ViewMode::Detail => "Detail"@,
    }
}

impl ViewMode {
    /// Label shown in the central panel header.
    pub fn label(self) -> (r: &'static str)
        ensures
            r@ == view_label(self),
    {
        match self {
            ViewMode::Empty => "Welcome",
            ViewMode::System => "System",
            ViewMode::Globe => "Globe",
            ViewMode::Detail => "Detail",
        }
    }
}

/// Which field the globe view colours by.
#[derive(Debug, Clone, Copy, PartialEq, Eq, Structural, Hash)]
pub enum RenderMode {
    Elevation,
    Biome,
    Temperature,
    Moisture,
    Confidence,
    Plates,
}

impl Default for RenderMode {
    fn default() -> (r: Self)
        ensures
            r == RenderMode::Elevation,
    {
        RenderMode::Elevation
    }
}

/// Display label of a render mode.
pub open spec fn render_label(m: RenderMode) -> Seq<char> {
    match m {
        RenderMode::Elevation => "Elevation"@,
        RenderMode::Biome => "Biome"@,
        RenderMode::Temperature => "Temperature"@,
        RenderMode::Moisture => "Moisture"@,
        RenderMode::Confidence => "Confidence"@,
        RenderMode::Plates => "Plates"@,
    }
}

/// Every render mode, in menu order.
pub open spec fn all_render_modes() -> Seq<RenderMode> {
    seq![
        RenderMode::Elevation,
        RenderMode::Biome,
        RenderMode::Temperature,
        RenderMode::Moisture,
        RenderMode::Confidence,
        RenderMode::Plates,
    ]
}

impl RenderMode {
    /// Label shown in menus.
    pub fn label(self) -> (r: &'static str)
        ensures
            r@ == render_label(self),
    {
        match self {
            RenderMode::Elevation => "Elevation",
            RenderMode::Biome => "Biome",
            RenderMode::Temperature => "Temperature",
            RenderMode::Moisture => "Moisture",
            RenderMode::Confidence => "Confidence",
            RenderMode::Plates => "Plates",
        }
    }

    /// Every render mode, in menu order.
    pub fn all() -> (r: Vec<RenderMode>)
        ensures
            r@ == all_render_modes(),
    {
        let r = vec![
            RenderMode::Elevation,
            RenderMode::Biome,
            RenderMode::Temperature,
            RenderMode::Moisture,
            RenderMode::Confidence,
            RenderMode::Plates,
        ];
        assert(r@ =~= all_render_modes());
        r
    }
}

/// Every render mode is listed exactly once, and every label is non-empty.
pub proof fn law_render_modes_listed_once(m: RenderMode, v: ViewMode)
    ensures
        all_render_modes().contains(m),
        all_render_modes().no_duplicates(),
        render_label(m).len() > 0,
        view_label(v).len() > 0,
{
    reveal_strlit("Elevation");
    reveal_strlit("Biome");
    reveal_strlit("Temperature");
    reveal_strlit("Moisture");
    reveal_strlit("Confidence");
    reveal_strlit("Plates");
    reveal_strlit("Welcome");
    reveal_strlit("System");
    reveal_strlit("Globe");
    reveal_strlit("Detail");
    let s = all_render_modes();
    match m {
        RenderMode::Elevation => assert(s[0] == m),
        RenderMode::Biome => assert(s[1] == m),
        RenderMode::Temperature => assert(s[2] == m),
        RenderMode::Moisture => assert(s[3] == m),
        RenderMode::Confidence => assert(s[4] == m),
        RenderMode::Plates => assert(s[5] == m),
    }
}

// ---------------------------------------------------------------------------
// Panels and the inspector
// ---------------------------------------------------------------------------

/// Where a panel is docked in the window.
#[derive(Debug, Clone, Copy, PartialEq, Eq, Structural, Hash)]
pub enum PanelRegion {
    LeftSidebar,
    Central,
    Inspector,
}

/// Tabs of the inspector panel.
#[derive(Debug, Clone, Copy, PartialEq, Eq, Structural, Hash)]
pub enum InspectorTab {
    Fields,
    Provenance,
    Override,
}

impl Default for InspectorTab {
    fn default() -> (r: Self)
        ensures
            r == InspectorTab::Fields,
    {
        InspectorTab::Fields
    }
}

/// Display label of an inspector tab.
pub open spec fn tab_label(t: InspectorTab) -> Seq<char> {
    match t {
        InspectorTab::Fields => "Fields"@,
        InspectorTab::Provenance => "Provenance"@,
        InspectorTab::Override => "Override"@,
    }
}

/// Every inspector tab, in display order.
pub open spec fn all_tabs() -> Seq<InspectorTab> {
    seq![InspectorTab::Fields, InspectorTab::Provenance, InspectorTab::Override]
}

impl InspectorTab {
    /// Label shown on the tab.
    pub fn label(self) -> (r: &'static str)
        ensures
            r@ == tab_label(self),
    {
        match self {
            InspectorTab::Fields => "Fields",
            InspectorTab::Provenance => "Provenance",
            InspectorTab::Override => "Override",
        }
    }

    /// Every tab, in display order.
    pub fn all() -> (r: Vec<InspectorTab>)
        ensures
            r@ == all_tabs(),
    {
        let r = vec![InspectorTab::Fields, InspectorTab::Provenance, InspectorTab::Override];
        assert(r@ =~= all_tabs());
        r
    }
}

/// The inspector panel: remembers which tab is shown.
#[derive(Debug)]
pub struct InspectorPanel {
    current: InspectorTab,
}

impl InspectorPanel {
    /// The tab currently shown.
    pub closed spec fn tab(&self) -> InspectorTab {
        self.current
    }

    /// A panel showing the default (fields) tab.
    pub fn new() -> (r: Self)
        ensures
            r.tab() == InspectorTab::Fields,
    {
        InspectorPanel { current: InspectorTab::Fields }
    }

    /// The tab currently shown.
    pub fn current_tab(&self) -> (r: InspectorTab)
        ensures
            r == self.tab(),
    {
        self.current
    }

    /// Show another tab.
    pub fn set_tab(&mut self, tab: InspectorTab)
        ensures
            final(self).tab() == tab,
    {
        self.current = tab;
    }

    /// The inspector docks on the right.
    pub fn region(&self) -> (r: PanelRegion)
        ensures
            r == PanelRegion::Inspector,
    {
        PanelRegion::Inspector
    }

    /// The panel's title.
    pub fn title(&self) -> (r: &'static str)
        ensures
            r@ == "Inspector"@,
    {
        "Inspector"
    }
}

impl Default for InspectorPanel {
    fn default() -> (r: Self)
        ensures
            r.tab() == InspectorTab::Fields,
    {
        InspectorPanel::new()
    }
}

// ---------------------------------------------------------------------------
// Opening a world directory
// ---------------------------------------------------------------------------

/// A path of the standard library.
#[verifier::external_type_specification]
#[verifier::external_body]
pub struct ExPathBuf(std::path::PathBuf);

/// Calls `std::path::Path::exists`. Whether the path exists is a fact about
/// the file system at the time of the call; nothing is claimed of it.
#[verifier::external_body]
fn path_exists(path: &PathBuf) -> bool {
    path.exists()
}

/// Calls `std::path::Path::is_dir`. What it reports depends on the file
/// system at the time of the call; nothing is claimed of it.
#[verifier::external_body]
fn path_is_dir(path: &PathBuf) -> bool {
    path.is_dir()
}

/// Formats a path with `std::path::Path::display` (lossy UTF-8); nothing is
/// claimed of the text.
#[verifier::external_body]
fn path_text(path: &PathBuf) -> String {
    format!("{}", path.display())
}

/// A world directory that has been opened.
#[derive(Debug)]
pub struct LoadedWorld {
    path: PathBuf,
}

/// Why a world directory could not be opened.
#[derive(Debug)]
pub enum WorldLoadError {
    /// The path does not exist.
    NotFound(PathBuf),
    /// The path exists but is not a directory.
    NotADirectory(PathBuf),
}

/// The outcome of opening `path` given what the file system reported: a
/// missing path is not found, an existing non-directory is refused, and a
/// directory opens.
pub open spec fn probe_outcome(path: PathBuf, exists: bool, is_dir: bool, r: Result<LoadedWorld, WorldLoadError>) -> bool {
    &&& !exists ==> r == Err::<LoadedWorld, WorldLoadError>(WorldLoadError::NotFound(path))
    &&& exists && !is_dir ==> r == Err::<LoadedWorld, WorldLoadError>(WorldLoadError::NotADirectory(path))
    &&& exists && is_dir ==> (r matches Ok(w) && w.dir() == path)
}

impl LoadedWorld {
    /// The directory this world was opened from.
    pub closed spec fn dir(&self) -> PathBuf {
        self.path
    }

    /// Decide the outcome of opening `path` from what the file system
    /// reported: a missing path is not found, an existing non-directory is
    /// refused, and a directory opens.
    pub fn from_probe(path: PathBuf, exists: bool, is_dir: bool) -> (r: Result<LoadedWorld, WorldLoadError>)
        ensures
            probe_outcome(path, exists, is_dir, r),
    {
        if !exists {
            return Err(WorldLoadError::NotFound(path));
        }
        if !is_dir {
            return Err(WorldLoadError::NotADirectory(path));
        }
        Ok(LoadedWorld { path })
    }

    /// Open a world directory: the path must exist and be a directory.
    /// Which outcome comes depends on the file system, so it is stated as
    /// the outcome of [`LoadedWorld::from_probe`] for some probe in which a
    /// directory also exists.
    pub fn open(path: PathBuf) -> (r: Result<LoadedWorld, WorldLoadError>)
        ensures
            exists|e: bool, d: bool| (d ==> e) && #[trigger] probe_outcome(path, e, d, r),
            match r {
                Ok(w) => w.dir() == path,
                Err(WorldLoadError::NotFound(p)) => p == path,
                Err(WorldLoadError::NotADirectory(p)) => p == path,
            },
    {
        let ghost p = path;
        let exists = path_exists(&path);
        let is_dir = if exists {
            path_is_dir(&path)
        } else {
            false
        };
        let r = LoadedWorld::from_probe(path, exists, is_dir);
        assert(probe_outcome(p, exists, is_dir, r));
        r
    }

    /// The directory this world was opened from.
    pub fn path(&self) -> (r: &PathBuf)
        ensures
            *r == self.dir(),
    {
        &self.path
    }
}

impl WorldLoadError {
    /// Human-readable description of the error.
    pub fn to_string(&self) -> (r: String)
        ensures
            *self matches WorldLoadError::NotFound(_) ==> r@.len() >= "world directory does not exist: "@.len()
                && r@.subrange(0, "world directory does not exist: "@.len() as int)
                == "world directory does not exist: "@,
            *self matches WorldLoadError::NotADirectory(_) ==> r@.len() >= "path is not a directory: "@.len()
                && r@.subrange(0, "path is not a directory: "@.len() as int)
                == "path is not a directory: "@,
    {
        let (prefix, p) = match self {
            WorldLoadError::NotFound(p) => ("world directory does not exist: ", p),
            WorldLoadError::NotADirectory(p) => ("path is not a directory: ", p),
        };
        let mut r = prefix.to_owned();
        let detail = path_text(p);
        r.append(detail.as_str());
        assert(r@.subrange(0, prefix@.len() as int) =~= prefix@);
        r
    }
}

// ---------------------------------------------------------------------------
// Application state
// ---------------------------------------------------------------------------

/// Persistent preferences and selection state shared by the panels.
#[derive(Debug)]
pub struct AppState {
    /// Which view the central region shows.
    pub view_mode: ViewMode,
    /// Which channel the globe view renders.
    pub render_mode: RenderMode,
    /// Whether the source-confidence overlay is on.
    pub confidence_overlay: bool,
    /// Last opened world directory.
    pub last_world_path: Option<PathBuf>,
}

impl Default for AppState {
    fn default() -> (r: Self)
        ensures
            r.view_mode == ViewMode::Empty,
            r.render_mode == RenderMode::Elevation,
            !r.confidence_overlay,
            r.last_world_path is None,
    {
        AppState {
            view_mode: ViewMode::default(),
            render_mode: RenderMode::default(),
            confidence_overlay: false,
            last_world_path: None,
        }
    }
}

/// The application: persistent state, the open world and the inspector.
pub struct YmirApp {
    /// Persistent preferences and selection state.
    pub state: AppState,
    /// Currently open world, if any.
    pub world: Option<LoadedWorld>,
    /// The inspector panel.
    pub inspector: InspectorPanel,
}

impl Default for YmirApp {
    fn default() -> (r: Self)
        ensures
            r.state.view_mode == ViewMode::Empty,
            r.state.render_mode == RenderMode::Elevation,
            !r.state.confidence_overlay,
            r.state.last_world_path is None,
            r.world is None,
            r.inspector.tab() == InspectorTab::Fields,
    {
        YmirApp { state: AppState::default(), world: None, inspector: InspectorPanel::new() }
    }
}

// ---------------------------------------------------------------------------
// Star browser filter logic
// ---------------------------------------------------------------------------

/// The Harvard classes in temperature order, hot to cool.
pub open spec fn all_classes() -> Seq<SpectralClass> {
    seq![
        SpectralClass::O,
        SpectralClass::B,
        SpectralClass::A,
        SpectralClass::F,
        SpectralClass::G,
        SpectralClass::K,
        SpectralClass::M,
    ]
}

/// Position of a class in [`all_classes`].
pub fn class_index(class: &SpectralClass) -> (r: usize)
    ensures
        r < 7,
        all_classes()[r as int] == *class,
{
    match class {
        SpectralClass::O => 0,
        SpectralClass::B => 1,
        SpectralClass::A => 2,
        SpectralClass::F => 3,
        SpectralClass::G => 4,
        SpectralClass::K => 5,
        SpectralClass::M => 6,
    }
}

/// The class at a position of [`all_classes`].
fn class_at(i: usize) -> (r: SpectralClass)
    requires
        i < 7,
    ensures
        r == all_classes()[i as int],
{
    if i == 0 {
        SpectralClass::O
    } else if i == 1 {
        SpectralClass::B
    } else if i == 2 {
        SpectralClass::A
    } else if i == 3 {
        SpectralClass::F
    } else if i == 4 {
        SpectralClass::G
    } else if i == 5 {
        SpectralClass::K
    } else {
        SpectralClass::M
    }
}

/// Short label of an indexed spectral type: class letter then subtype,
/// e.g. "G2".
pub fn spectral_label(s: &IndexedSpectralType) -> (r: String)
    ensures
        r@ == seq![class_letter(s.class)] + decimal(s.subtype as nat),
{
    let mut r = String::new();
    r.push(s.class.letter());
    push_decimal(&mut r, s.subtype as u64);
    assert(r@ =~= seq![class_letter(s.class)] + decimal(s.subtype as nat));
    r
}

/// Display name of a star: its common name, else "Gaia " and its source id.
pub fn display_name(common_name: &Option<String>, gaia_id: u64) -> (r: String)
    ensures
        r@ == match common_name {
            Some(n) => n@,
            None => "Gaia "@ + decimal(gaia_id as nat),
        },
{
    match common_name {
        Some(n) => n.clone(),
        None => {
            let mut r = "Gaia ".to_owned();
            let id = decimal_string(gaia_id);
            r.append(id.as_str());
            r
        },
    }
}

/// Every class toggle is on.
pub fn all_classes_enabled(enabled: &[bool; 7]) -> (r: bool)
    ensures
        r == (forall|i: int| 0 <= i < 7 ==> enabled@[i]),
{
    let mut i: usize = 0;
    while i < 7
        invariant
            i <= 7,
            enabled@.len() == 7,
            forall|j: int| 0 <= j < i ==> enabled@[j],
        decreases 7 - i,
    {
        if !enabled[i] {
            return false;
        }
        i = i + 1;
    }
    true
}

/// A star of the given class passes the class toggles: either every class
/// is on, or its own toggle is.
pub fn class_passes(enabled: &[bool; 7], class: &SpectralClass) -> (r: bool)
    ensures
        r == ((forall|i: int| 0 <= i < 7 ==> enabled@[i]) || enabled@[
            all_classes().index_of(*class)
        ]),
{
    let idx = class_index(class);
    proof {
        let s = all_classes();
        assert(s.no_duplicates());
        s.index_of_first_ensures(*class);
        assert(s.index_of(*class) == idx as int) by {
            assert(s[idx as int] == *class);
        }
    }
    all_classes_enabled(enabled) || enabled[idx]
}

/// Number of toggles that are on among the first `k`.
pub open spec fn enabled_count(enabled: Seq<bool>, k: int) -> int
    decreases k,
{
    if k <= 0 {
        0
    } else {
        enabled_count(enabled, k - 1) + if enabled[k - 1] { 1int } else { 0int }
    }
}

/// The single enabled class, when exactly one toggle is on; a catalog query
/// can then filter by it.
pub fn single_enabled_class(enabled: &[bool; 7]) -> (r: Option<SpectralClass>)
    ensures
        enabled_count(enabled@, 7) == 1 <==> r is Some,
        r matches Some(c) ==> exists|i: int|
            0 <= i < 7 && enabled@[i] && all_classes()[i] == c,
{
    let mut count: usize = 0;
    let mut first: usize = 7;
    let mut i: usize = 0;
    while i < 7
        invariant
            i <= 7,
            enabled@.len() == 7,
            count == enabled_count(enabled@, i as int),
            count <= i,
            first <= 7,
            first < 7 ==> first < i && enabled@[first as int],
            count > 0 ==> first < 7,
        decreases 7 - i,
    {
        if enabled[i] {
            count = count + 1;
            if first == 7 {
                first = i;
            }
        }
        i = i + 1;
    }
    if count == 1 {
        Some(class_at(first))
    } else {
        None
    }
}

/// `t` occurs in `s` as a contiguous run.
pub open spec fn contains_run(s: Seq<char>, t: Seq<char>) -> bool {
    exists|i: int| 0 <= i <= s.len() - t.len() && #[trigger] s.subrange(i, i + t.len()) == t
}

fn find_run(s: &Vec<char>, t: &Vec<char>) -> (r: bool)
    requires
        t@.len() > 0,
    ensures
        r == contains_run(s@, t@),
{
    let n = s.len();
    let m = t.len();
    if m > n {
        proof {
            assert forall|i: int| 0 <= i <= s@.len() - t@.len() implies #[trigger] s@.subrange(
                i,
                i + t@.len(),
            ) != t@ by {}
        }
        return false;
    }
    let last = n - m;
    let mut i: usize = 0;
    while i <= last
        invariant
            n == s@.len(),
            m == t@.len(),
            m > 0,
            m <= n,
            last == n - m,
            i <= last + 1,
            forall|j: int| 0 <= j < i ==> #[trigger] s@.subrange(j, j + t@.len()) != t@,
        decreases last + 1 - i,
    {
        let mut k: usize = 0;
        let mut same = true;
        while k < m
            invariant
                n == s@.len(),
                m == t@.len(),
                m <= n,
                i <= last,
                last == n - m,
                k <= m,
                same == (forall|q: int| 0 <= q < k ==> s@[i + q] == t@[q]),
            decreases m - k,
        {
            if s[i + k] != t[k] {
                same = false;
            }
            k = k + 1;
        }
        if same {
            assert(s@.subrange(i as int, i + t@.len()) =~= t@);
            return true;
        }
        assert(s@.subrange(i as int, i + t@.len()) != t@) by {
            let q = choose|q: int| 0 <= q < t@.len() && s@[i + q] != t@[q];
            assert(s@.subrange(i as int, i + t@.len())[q] != t@[q]);
        }
        i = i + 1;
    }
    false
}

/// A star passes the text search when the search is empty, its common name
/// contains it case-insensitively (the search text is compared as given),
/// or its Gaia source id in decimal contains it.
pub open spec fn text_hit(text: Seq<char>, common_name: Option<Seq<char>>, gaia_id: u64) -> bool {
    text.len() == 0 || (common_name matches Some(n) && contains_run(ascii_lowercase(n), text))
        || contains_run(decimal(gaia_id as nat), text)
}

/// The star browser's text search against a star's common name and id.
pub fn text_matches(text: &str, common_name: &Option<String>, gaia_id: u64) -> (r: bool)
    ensures
        r == text_hit(
            text@,
            match common_name {
                Some(n) => Some(n@),
                None => None,
            },
            gaia_id,
        ),
{
    if text.is_empty() {
        return true;
    }
    let t = chars_of(text);
    let name_hit = match common_name {
        Some(n) => {
            let raw = chars_of(n.as_str());
            let mut lower: Vec<char> = Vec::new();
            let mut i: usize = 0;
            while i < raw.len()
                invariant
                    i <= raw@.len(),
                    lower@ == ascii_lowercase(raw@.take(i as int)),
                decreases raw@.len() - i,
            {
                lower.push(lower_char(raw[i]));
                assert(ascii_lowercase(raw@.take(i + 1)) =~= ascii_lowercase(raw@.take(i as int)).push(
                    ascii_lower(raw@[i as int]),
                ));
                i = i + 1;
            }
            assert(raw@.take(raw@.len() as int) =~= raw@);
            find_run(&lower, &t)
        },
        None => false,
    };
    if name_hit {
        return true;
    }
    let id = chars_of(decimal_string(gaia_id).as_str());
    find_run(&id, &t)
}


/// The keyboard cursor after an arrow key in a list of `row_count` rows:
/// down moves one row further (stopping at the last row), up one row back
/// (stopping at the first); with no cursor yet, both start from the first
/// row.
pub open spec fn cursor_after(cursor: Option<usize>, row_count: nat, down: bool) -> nat {
    let c: nat = match cursor {
        Some(k) => k as nat,
        None => 0,
    };
    if down {
        if c + 1 < row_count {
            c + 1
        } else {
            (row_count - 1) as nat
        }
    } else if c >= 1 {
        (c - 1) as nat
    } else {
        0
    }
}

/// Move the star browser's keyboard cursor for an arrow key.
pub fn move_cursor(cursor: Option<usize>, row_count: usize, down: bool) -> (r: usize)
    requires
        row_count > 0,
    ensures
        r == cursor_after(cursor, row_count as nat, down),
{
    let c = match cursor {
        Some(k) => k,
        None => 0,
    };
    if down {
        if c < row_count - 1 {
            c + 1
        } else {
            row_count - 1
        }
    } else if c >= 1 {
        c - 1
    } else {
        0
    }
}

/// Keep the keyboard cursor inside a rebuilt list of `row_count` rows: a
/// cursor past the end moves to the last row, or is dropped when the list is
/// empty.
pub fn clamp_cursor(cursor: Option<usize>, row_count: usize) -> (r: Option<usize>)
    ensures
        match cursor {
            Some(k) => if k < row_count {
                r == Some(k)
            } else if row_count == 0 {
                r is None
            } else {
                r == Some((row_count - 1) as usize)
            },
            None => r is None,
        },
{
    match cursor {
        Some(k) => if k >= row_count {
            if row_count == 0 {
                None
            } else {
                Some(row_count - 1)
            }
        } else {
            Some(k)
        },
        None => None,
    }
}

/// A cursor inside a non-empty list stays inside it after any arrow key,
/// moving by at most one row.
pub proof fn law_cursor_stays_in_list(cursor: Option<usize>, row_count: nat, down: bool)
    requires
        row_count > 0,
        forall|k: usize| cursor == Some(k) ==> k < row_count,
    ensures
        cursor_after(cursor, row_count, down) < row_count,
        forall|k: usize|
            cursor == Some(k) ==> (if down {
                cursor_after(cursor, row_count, down) <= k + 1
            } else {
                cursor_after(cursor, row_count, down) + 1 >= k
            }),
{
}

/// An arrow key moves an existing cursor exactly one row in its direction
/// unless that would leave the list (then it stays put), and with no cursor
/// yet the key acts as if the cursor were on the first row.
pub proof fn law_cursor_moves_one_row(cursor: Option<usize>, row_count: nat, down: bool)
    requires
        row_count > 0,
        forall|k: usize| cursor == Some(k) ==> k < row_count,
    ensures
        cursor is None ==> cursor_after(cursor, row_count, down) == cursor_after(
            Some(0usize),
            row_count,
            down,
        ),
        cursor matches Some(k) ==> (if down {
            if k + 1 < row_count {
                cursor_after(cursor, row_count, down) == k + 1
            } else {
                cursor_after(cursor, row_count, down) == k
            }
        } else {
            if k > 0 {
                cursor_after(cursor, row_count, down) + 1 == k
            } else {
                cursor_after(cursor, row_count, down) == 0
            }
        }),
{
    if let Some(k) = cursor {
        assert(k < row_count);
    }
}

/// An empty search matches every star, a star is always found by its full
/// Gaia source ID in decimal, and a star with a common name is found by the
/// lower-case form of that whole name.
pub proof fn law_search_finds_by_id_and_name(common_name: Option<Seq<char>>, gaia_id: u64)
    ensures
        text_hit(Seq::empty(), common_name, gaia_id),
        text_hit(decimal(gaia_id as nat), common_name, gaia_id),
        common_name matches Some(n) ==> (n.len() > 0 ==> text_hit(ascii_lowercase(n), common_name, gaia_id)),
{
    let d = decimal(gaia_id as nat);
    assert(d.subrange(0int, 0int + d.len()) =~= d);
    assert(contains_run(d, d));
    let e = Seq::<char>::empty();
    assert(d.subrange(0int, 0int + e.len()) =~= e);
    if let Some(n) = common_name {
        let l = ascii_lowercase(n);
        assert(l.subrange(0int, 0int + l.len()) =~= l);
        assert(contains_run(l, l));
    }
}

/// The Harvard classes, hot to cool, are lettered O, B, A, F, G, K, M.
pub proof fn law_class_letters_spell_obafgkm(i: int)
    requires
        0 <= i < 7,
    ensures
        class_letter(all_classes()[i]) == "OBAFGKM"@[i],
{
    reveal_strlit("OBAFGKM");
}

} // verus!
