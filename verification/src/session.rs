//! The application's decisions: how the library screen's state answers each
//! event, and which outside work (audio, storage, rendering, dialogs) it
//! asks for. The application performs the actions and reports their
//! outcome back as events.
use vstd::prelude::*;
use crate::model::{Instrument, InstrumentFilter, Song};
use crate::form::{SongFormState, form_valid, form_song, form_of};
use crate::library::{sort_songs, stably_sorted, song_before, listed};
use crate::text::{concat_str, text_or_empty, opt_text};

verus! {

/// The state of the library screen.
pub struct Session {
    pub songs: Vec<Song>,
    pub filter: InstrumentFilter,
    pub search: String,
    pub selected_song_id: Option<String>,
    pub form: Option<SongFormState>,
    pub confirm_delete_id: Option<String>,
    pub status: Option<String>,
    pub pdf_rendering: bool,
    pub sync_analyzing: bool,
}

/// Something that happened: a user action, or the outcome of an action.
pub enum Event {
    SongsLoaded(Vec<Song>),
    SongSelected(String),
    FilterChanged(InstrumentFilter),
    SearchChanged(String),
    NewSong,
    EditSong(String),
    ConfirmDeleteSong(String),
    CancelDelete,
    DeleteSong(String),
    /// The store deleted the song `id`, or failed with `error`.
    DeleteFinished { id: String, error: Option<String> },
    FormTitleChanged(String),
    FormArtistChanged(String),
    FormInstrumentChanged(Instrument),
    FormYoutubeUrlChanged(String),
    FormSpotifyUrlChanged(String),
    FormPdfPathChanged(String),
    FormMp3PathChanged(String),
    FormPickPdf,
    FormPickMp3,
    FormPdfPicked(Option<String>),
    FormMp3Picked(Option<String>),
    /// Save the form; a new song gets `fresh_id`, and `now` is the time.
    FormSubmit { fresh_id: String, now: i64 },
    /// The store saved `song`, or failed with `error`.
    SaveFinished { song: Song, is_new: bool, error: Option<String> },
    FormCancel,
    FormTabPressed,
    /// Loading the selected song's audio failed.
    AudioLoadFailed(String),
    AudioError(String),
    /// The companion browser window could not be opened.
    WebviewFailed(String),
    PdfRendered,
    PdfError(String),
    /// Analyze the selected song; `audio_available` tells whether audio
    /// playback is available.
    AnalyzeSync { audio_available: bool },
    SyncAnalysisComplete,
    /// The store saved the new sync map, or failed with `error`.
    SyncSaveFinished { error: Option<String> },
    SyncAnalysisFailed(String),
    /// Export the sync debug overlay; `has_sync_map` tells whether a sync
    /// map is loaded.
    DebugSync { has_sync_map: bool },
    SyncDebugFailed(String),
    /// Opening the exported overlay failed.
    DebugOpenFailed(String),
    /// Any other message: it only clears the status line.
    Other,
}

/// Outside work the session asks for.
pub enum Action {
    LoadAudio(String),
    StopAudio,
    ClearPdfPages,
    ClearPdfHeights,
    ClearSyncMap,
    ClearSeekTarget,
    LoadSyncMap(String),
    RenderPdf { pdf_path: String, song_id: String },
    FocusFirstField,
    FocusNextField,
    DeleteFromStore(String),
    PickPdfFile,
    PickAudioFile,
    SaveSong { song: Song, is_new: bool },
    GenerateSync { pdf_path: String, song_id: String },
    SaveSyncMap(String),
    GenerateDebug { song_title: String, source_pdf: Option<String> },
}

/// The position of the first song with id `id`.
pub open spec fn first_with_id(songs: Seq<Song>, id: Seq<char>) -> Option<int> {
    if exists|k: int| 0 <= k < songs.len() && (#[trigger] songs[k]).id@ == id {
        let k = choose|k: int|
            0 <= k < songs.len() && (#[trigger] songs[k]).id@ == id && forall|j: int|
                0 <= j < k ==> (#[trigger] songs[j]).id@ != id;
        Some(k)
    } else {
        None
    }
}

/// The song with id `id`, if the library holds one.
pub open spec fn song_with_id(songs: Seq<Song>, id: Seq<char>) -> Option<Song> {
    match first_with_id(songs, id) {
        Some(k) => Some(songs[k]),
        None => None,
    }
}

/// `s` with the status line cleared.
pub open spec fn cleared(s: Session) -> Session {
    Session { status: None, ..s }
}

/// `new` is `base` but for its status line, which reads `msg`.
pub open spec fn with_status(base: Session, new: Session, msg: Seq<char>) -> bool {
    new == Session { status: new.status, ..base } && opt_text(new.status) == Some(msg)
}

/// Selecting the song `id`: the form, a pending delete, the page images,
/// the sync map and the seek target are dropped; if the library holds the
/// song, its audio is loaded (or playback stopped when it has none), its
/// sync map is loaded, and its tab rendered when it has one.
pub open spec fn select_step(old: Session, id: String, new: Session, acts: Seq<Action>) -> bool {
    let sel = Session {
        selected_song_id: Some(id),
        form: None,
        confirm_delete_id: None,
        pdf_rendering: false,
        sync_analyzing: false,
        ..cleared(old)
    };
    let clears = seq![
        Action::ClearPdfPages,
        Action::ClearPdfHeights,
        Action::ClearSyncMap,
        Action::ClearSeekTarget,
    ];
    match song_with_id(old.songs@, id@) {
        None => new == sel && acts == clears,
        Some(song) => {
            let audio = match song.mp3_path {
                Some(p) => Action::LoadAudio(p),
                None => Action::StopAudio,
            };
            let loads = clears.push(audio).push(Action::LoadSyncMap(id));
            match song.pdf_path {
                Some(pdf) => new == Session { pdf_rendering: true, ..sel } && acts == loads.push(
                    Action::RenderPdf { pdf_path: pdf, song_id: id },
                ),
                None => new == sel && acts == loads,
            }
        },
    }
}

/// The position of the first song with id `id`.
fn find_song(songs: &Vec<Song>, id: &String) -> (r: Option<usize>)
    ensures
        r matches Some(k) ==> first_with_id(songs@, id@) == Some(k as int) && k < songs.len()
            && songs@[k as int].id@ == id@,
        r is None ==> first_with_id(songs@, id@) is None,
{
    let mut k: usize = 0;
    while k < songs.len()
        invariant
            k <= songs.len(),
            forall|j: int| 0 <= j < k ==> (#[trigger] songs@[j]).id@ != id@,
        decreases songs.len() - k,
    {
        if crate::text::str_equal(songs[k].id.as_str(), id.as_str()) {
            proof {
                let c = choose|c: int|
                    0 <= c < songs@.len() && (#[trigger] songs@[c]).id@ == id@ && forall|j: int|
                        0 <= j < c ==> (#[trigger] songs@[j]).id@ != id@;
                assert(songs@[k as int].id@ == id@);
                if c < k {
                    assert(songs@[c].id@ != id@);
                } else if c > k {
                    assert(songs@[k as int].id@ != id@);
                }
            }
            return Some(k);
        }
        k += 1;
    }
    None
}

fn copy_string_opt(o: &Option<String>) -> (r: Option<String>)
    ensures
        r == *o,
{
    match o {
        Some(s) => Some(s.clone()),
        None => None,
    }
}

fn status_text(prefix: &str, detail: &str) -> (s: Option<String>)
    ensures
        opt_text(s) == Some(prefix@ + detail@),
{
    Some(concat_str(prefix, detail))
}

fn status_line(text: &str) -> (s: Option<String>)
    ensures
        opt_text(s) == Some(text@),
{
    Some(String::from_str(text))
}

impl Session {
    /// An empty library screen showing `songs`.
    pub fn new(songs: Vec<Song>) -> (s: Session)
        ensures
            s.songs == songs,
            s.filter == InstrumentFilter::All,
            s.search@.len() == 0,
            s.selected_song_id is None,
            s.form is None,
            s.confirm_delete_id is None,
            s.status is None,
            !s.pdf_rendering,
            !s.sync_analyzing,
    {
        Session {
            songs,
            filter: InstrumentFilter::All,
            search: String::new(),
            selected_song_id: None,
            form: None,
            confirm_delete_id: None,
            status: None,
            pdf_rendering: false,
            sync_analyzing: false,
        }
    }

    fn select(&mut self, id: String) -> (acts: Vec<Action>)
        ensures
            select_step(*old(self), id, *final(self), acts@),
    {
        let ghost old_self = *self;
        let found = find_song(&self.songs, &id);
        let mut acts: Vec<Action> = Vec::new();
        acts.push(Action::ClearPdfPages);
        acts.push(Action::ClearPdfHeights);
        acts.push(Action::ClearSyncMap);
        acts.push(Action::ClearSeekTarget);
        let ghost clears = seq![
            Action::ClearPdfPages,
            Action::ClearPdfHeights,
            Action::ClearSyncMap,
            Action::ClearSeekTarget,
        ];
        assert(acts@ =~= clears);
        let mut rendering = false;
        match found {
            None => {},
            Some(k) => {
                let audio = match &self.songs[k].mp3_path {
                    Some(p) => Action::LoadAudio(p.clone()),
                    None => Action::StopAudio,
                };
                acts.push(audio);
                acts.push(Action::LoadSyncMap(id.clone()));
                match &self.songs[k].pdf_path {
                    Some(pdf) => {
                        rendering = true;
                        acts.push(Action::RenderPdf { pdf_path: pdf.clone(), song_id: id.clone() });
                    },
                    None => {},
                }
            },
        }
        self.status = None;
        self.selected_song_id = Some(id);
        self.form = None;
        self.confirm_delete_id = None;
        self.pdf_rendering = rendering;
        self.sync_analyzing = false;
        acts
    }

    fn delete_finished(&mut self, id: String, error: Option<String>) -> (acts: Vec<Action>)
        ensures
            delete_step(*old(self), id, error, *final(self), acts@),
    {
        self.status = None;
        match error {
            Some(e) => {
                self.status = status_text("Delete failed: ", e.as_str());
                Vec::new()
            },
            None => {
                let kept = remove_songs_with_id(&mut self.songs, &id);
                let was_selected = match &self.selected_song_id {
                    Some(sid) => crate::text::str_equal(sid.as_str(), id.as_str()),
                    None => false,
                };
                let mut acts: Vec<Action> = Vec::new();
                if was_selected {
                    self.selected_song_id = None;
                    acts.push(Action::ClearPdfPages);
                    acts.push(Action::ClearSyncMap);
                    acts.push(Action::StopAudio);
                    assert(acts@ =~= seq![Action::ClearPdfPages, Action::ClearSyncMap, Action::StopAudio]);
                }
                acts
            },
        }
    }

    fn save_finished(&mut self, song: Song, is_new: bool, error: Option<String>) -> (acts: Vec<Action>)
        ensures
            save_step(*old(self), song, is_new, error, *final(self), acts@),
    {
        self.status = None;
        match error {
            Some(e) => {
                self.status = status_text("Save failed: ", e.as_str());
            },
            None => {
                let sid = song.id.clone();
                let mut songs: Vec<Song> = Vec::new();
                std::mem::swap(&mut songs, &mut self.songs);
                let ghost before = songs@;
                if is_new {
                    songs.push(song);
                } else {
                    match find_song(&songs, &sid) {
                        Some(k) => {
                            songs.set(k, song);
                        },
                        None => {},
                    }
                }
                assert(songs@ == with_saved(before, song, is_new));
                self.songs = sort_songs(songs);
                self.selected_song_id = Some(sid);
                self.form = None;
            },
        }
        Vec::new()
    }
}

/// `songs` with `song` saved in: appended when new, else put in place of
/// the first song with its id.
pub open spec fn with_saved(songs: Seq<Song>, song: Song, is_new: bool) -> Seq<Song> {
    if is_new {
        songs.push(song)
    } else {
        match first_with_id(songs, song.id@) {
            Some(k) => songs.update(k, song),
            None => songs,
        }
    }
}

/// The store's answer to deleting song `id`: on failure the status line
/// says so; else the songs with that id leave the library, and if it was
/// the selected song the selection, the page images, the sync map and the
/// audio go too.
pub open spec fn delete_step(old: Session, id: String, error: Option<String>, new: Session, acts: Seq<Action>) -> bool {
    let base = cleared(old);
    match error {
        Some(e) => with_status(base, new, "Delete failed: "@ + e@) && acts == Seq::<Action>::empty(),
        None => {
            let songs = old.songs@.filter(|s: Song| s.id@ != id@);
            let selected = match old.selected_song_id {
                Some(sid) => sid@ == id@,
                None => false,
            };
            &&& new.songs@ == songs
            &&& if selected {
                &&& new == Session { songs: new.songs, selected_song_id: None, ..base }
                &&& acts == seq![Action::ClearPdfPages, Action::ClearSyncMap, Action::StopAudio]
            } else {
                &&& new == Session { songs: new.songs, ..base }
                &&& acts == Seq::<Action>::empty()
            }
        },
    }
}

/// The store's answer to saving `song`: on failure the status line says so
/// and the form stays open; else the song joins the library (or replaces
/// its stored version), the library is sorted stably by artist and title,
/// the song is selected and the form closed.
pub open spec fn save_step(old: Session, song: Song, is_new: bool, error: Option<String>, new: Session, acts: Seq<Action>) -> bool {
    let base = cleared(old);
    &&& acts == Seq::<Action>::empty()
    &&& match error {
        Some(e) => with_status(base, new, "Save failed: "@ + e@),
        None => {
            &&& exists|perm: Seq<int>| stably_sorted(with_saved(old.songs@, song, is_new), new.songs@, perm)
            &&& new == Session {
                songs: new.songs,
                selected_song_id: Some(song.id),
                form: None,
                ..base
            }
        },
    }
}

/// Removes every song with id `id`, keeping the others in order.
fn remove_songs_with_id(songs: &mut Vec<Song>, id: &String) -> (n: usize)
    ensures
        final(songs)@ == old(songs)@.filter(|s: Song| s.id@ != id@),
{
    let ghost orig = songs@;
    let ghost keep = |s: Song| s.id@ != id@;
    let mut rest: Vec<Song> = Vec::new();
    std::mem::swap(&mut rest, songs);
    let n = rest.len();
    let mut i: usize = 0;
    while i < n
        invariant
            n == orig.len(),
            i <= n,
            rest@ == orig.skip(i as int),
            songs@ == orig.take(i as int).filter(keep),
            keep == (|s: Song| s.id@ != id@),
        decreases n - i,
    {
        assert(rest@[0] == orig[i as int]);
        let s = rest.remove(0);
        assert(rest@ =~= orig.skip(i + 1));
        proof {
            assert(orig.take(i + 1) =~= orig.take(i as int).push(s));
            orig.take(i as int).lemma_filter_push(s, keep);
        }
        if !crate::text::str_equal(s.id.as_str(), id.as_str()) {
            songs.push(s);
        }
        i += 1;
    }
    assert(orig.take(n as int) =~= orig);
    n
}

/// Saving the form: when one is open and valid, the song it describes is
/// handed to the store (new when the form was not editing a song); else
/// nothing happens.
pub open spec fn submit_step(old: Session, fresh_id: String, now: i64, new: Session, acts: Seq<Action>) -> bool {
    &&& new == cleared(old)
    &&& match old.form {
        Some(f) => if form_valid(f) {
            &&& acts.len() == 1
            &&& acts[0] matches Action::SaveSong { song, is_new }
            &&& form_song(f, fresh_id@, now, song)
            &&& is_new == f.editing_id is None
        } else {
            acts == Seq::<Action>::empty()
        },
        None => acts == Seq::<Action>::empty(),
    }
}

/// Editing song `id`: if the library holds it, the form opens filled in
/// from it and takes the focus.
pub open spec fn edit_step(old: Session, id: String, new: Session, acts: Seq<Action>) -> bool {
    match song_with_id(old.songs@, id@) {
        Some(song) => {
            &&& new == Session { form: new.form, ..cleared(old) }
            &&& new.form matches Some(f) && form_of(song, f)
            &&& acts == seq![Action::FocusFirstField]
        },
        None => new == cleared(old) && acts == Seq::<Action>::empty(),
    }
}

/// Analyzing the selected song: it needs a tab and available audio; then
/// the analysis starts on its tab, else the status line asks for both.
pub open spec fn analyze_step(old: Session, audio_available: bool, new: Session, acts: Seq<Action>) -> bool {
    let base = cleared(old);
    match old.selected_song_id {
        None => new == base && acts == Seq::<Action>::empty(),
        Some(id) => match song_with_id(old.songs@, id@) {
            None => new == base && acts == Seq::<Action>::empty(),
            Some(song) => match song.pdf_path {
                Some(pdf) => if audio_available {
                    &&& new == Session { sync_analyzing: true, ..base }
                    &&& acts == seq![Action::GenerateSync { pdf_path: pdf, song_id: id }]
                } else {
                    with_status(base, new, "Attach both a PDF and MP3 before analyzing"@) && acts
                        == Seq::<Action>::empty()
                },
                None => with_status(base, new, "Attach both a PDF and MP3 before analyzing"@) && acts
                    == Seq::<Action>::empty(),
            },
        },
    }
}

/// Exporting the debug overlay: without a sync map the status line says to
/// analyze first; else the export starts for the selected song's title (or
/// an empty title) and tab.
pub open spec fn debug_step(old: Session, has_sync_map: bool, new: Session, acts: Seq<Action>) -> bool {
    let base = cleared(old);
    if !has_sync_map {
        with_status(base, new, "No sync map — run Analyze Sync first"@) && acts == Seq::<Action>::empty()
    } else {
        let song = match old.selected_song_id {
            Some(id) => song_with_id(old.songs@, id@),
            None => None,
        };
        &&& new == base
        &&& acts.len() == 1
        &&& acts[0] matches Action::GenerateDebug { song_title, source_pdf }
        &&& match song {
            Some(s) => song_title@ == s.title@ && source_pdf == s.pdf_path,
            None => song_title@.len() == 0 && source_pdf is None,
        }
    }
}

impl Session {
    fn submit(&mut self, fresh_id: String, now: i64) -> (acts: Vec<Action>)
        ensures
            submit_step(*old(self), fresh_id, now, *final(self), acts@),
    {
        self.status = None;
        let mut acts: Vec<Action> = Vec::new();
        match &self.form {
            Some(f) => {
                if f.is_valid() {
                    let song = f.to_song_at(fresh_id, now);
                    let is_new = f.editing_id.is_none();
                    acts.push(Action::SaveSong { song, is_new });
                }
            },
            None => {},
        }
        acts
    }

    fn edit(&mut self, id: String) -> (acts: Vec<Action>)
        ensures
            edit_step(*old(self), id, *final(self), acts@),
    {
        self.status = None;
        let mut acts: Vec<Action> = Vec::new();
        match find_song(&self.songs, &id) {
            Some(k) => {
                let f = SongFormState::from_song(&self.songs[k]);
                self.form = Some(f);
                acts.push(Action::FocusFirstField);
            },
            None => {},
        }
        acts
    }

    fn analyze(&mut self, audio_available: bool) -> (acts: Vec<Action>)
        ensures
            analyze_step(*old(self), audio_available, *final(self), acts@),
    {
        self.status = None;
        let mut acts: Vec<Action> = Vec::new();
        let id = match &self.selected_song_id {
            Some(id) => id.clone(),
            None => return acts,
        };
        let k = match find_song(&self.songs, &id) {
            Some(k) => k,
            None => return acts,
        };
        match &self.songs[k].pdf_path {
            Some(pdf) => {
                if audio_available {
                    let pdf_path = pdf.clone();
                    self.sync_analyzing = true;
                    acts.push(Action::GenerateSync { pdf_path, song_id: id });
                    return acts;
                }
            },
            None => {},
        }
        self.status = status_line("Attach both a PDF and MP3 before analyzing");
        acts
    }

    fn debug(&mut self, has_sync_map: bool) -> (acts: Vec<Action>)
        ensures
            debug_step(*old(self), has_sync_map, *final(self), acts@),
    {
        self.status = None;
        let mut acts: Vec<Action> = Vec::new();
        if !has_sync_map {
            self.status = status_line("No sync map — run Analyze Sync first");
            return acts;
        }
        let found = match &self.selected_song_id {
            Some(id) => find_song(&self.songs, id),
            None => None,
        };
        match found {
            Some(k) => {
                let song_title = self.songs[k].title.clone();
                let source_pdf = copy_string_opt(&self.songs[k].pdf_path);
                acts.push(Action::GenerateDebug { song_title, source_pdf });
            },
            None => {
                acts.push(Action::GenerateDebug { song_title: String::new(), source_pdf: None });
            },
        }
        acts
    }
}

/// Why the debug overlay cannot be exported.
#[derive(Clone, Copy, Debug, PartialEq, Eq, Structural)]
pub enum DebugRefusal {
    /// No page of the tab has been rendered.
    NoPages,
    /// The sync map holds no point.
    NoSyncPoints,
}

/// Checks an export of the debug overlay over `page_count` rendered pages
/// and `point_count` sync points: refused without pages, else without
/// points.
pub fn debug_refusal(page_count: usize, point_count: usize) -> (r: Option<DebugRefusal>)
    ensures
        r == if page_count == 0 {
            Some(DebugRefusal::NoPages)
        } else if point_count == 0 {
            Some(DebugRefusal::NoSyncPoints)
        } else {
            None
        },
{
    if page_count == 0 {
        Some(DebugRefusal::NoPages)
    } else if point_count == 0 {
        Some(DebugRefusal::NoSyncPoints)
    } else {
        None
    }
}

/// A form as `SongFormState::new` gives it.
pub open spec fn fresh_form(f: SongFormState) -> bool {
    &&& f.editing_id is None
    &&& f.original_created_at is None
    &&& f.title@.len() == 0
    &&& f.artist@.len() == 0
    &&& f.instrument == Instrument::Guitar
    &&& f.youtube_url@.len() == 0
    &&& f.spotify_url@.len() == 0
    &&& f.pdf_path@.len() == 0
    &&& f.mp3_path@.len() == 0
}

/// `new` is `base` with the open form (if any) changed to `changed`.
pub open spec fn form_edit(base: Session, new: Session, changed: SongFormState) -> bool {
    match base.form {
        None => new == base,
        Some(_) => new == Session { form: Some(changed), ..base },
    }
}

/// How the session answers event `e`: its next state `new` and the actions
/// `acts` it asks for. Every event first clears the status line.
pub open spec fn stepped(old: Session, e: Event, new: Session, acts: Seq<Action>) -> bool {
    let base = cleared(old);
    let none = Seq::<Action>::empty();
    let f = old.form.unwrap();
    match e {
        Event::SongsLoaded(v) => new == Session { songs: v, ..base } && acts == none,
        Event::SongSelected(id) => select_step(old, id, new, acts),
        Event::FilterChanged(x) => new == Session { filter: x, ..base } && acts == none,
        Event::SearchChanged(x) => new == Session { search: x, ..base } && acts == none,
        Event::NewSong => {
            &&& new == Session { form: new.form, ..base }
            &&& new.form matches Some(nf) && fresh_form(nf)
            &&& acts == seq![Action::FocusFirstField]
        },
        Event::EditSong(id) => edit_step(old, id, new, acts),
        Event::ConfirmDeleteSong(id) => new == Session { confirm_delete_id: Some(id), ..base } && acts
            == none,
        Event::CancelDelete => new == Session { confirm_delete_id: None, ..base } && acts == none,
        Event::DeleteSong(id) => new == Session { confirm_delete_id: None, ..base } && acts == seq![
            Action::DeleteFromStore(id),
        ],
        Event::DeleteFinished { id, error } => delete_step(old, id, error, new, acts),
        Event::FormTitleChanged(v) => form_edit(base, new, SongFormState { title: v, ..f }) && acts
            == none,
        Event::FormArtistChanged(v) => form_edit(base, new, SongFormState { artist: v, ..f }) && acts
            == none,
        Event::FormInstrumentChanged(v) => form_edit(base, new, SongFormState { instrument: v, ..f })
            && acts == none,
        Event::FormYoutubeUrlChanged(v) => form_edit(base, new, SongFormState { youtube_url: v, ..f })
            && acts == none,
        Event::FormSpotifyUrlChanged(v) => form_edit(base, new, SongFormState { spotify_url: v, ..f })
            && acts == none,
        Event::FormPdfPathChanged(v) => form_edit(base, new, SongFormState { pdf_path: v, ..f })
            && acts == none,
        Event::FormMp3PathChanged(v) => form_edit(base, new, SongFormState { mp3_path: v, ..f })
            && acts == none,
        Event::FormPickPdf => new == base && acts == seq![Action::PickPdfFile],
        Event::FormPickMp3 => new == base && acts == seq![Action::PickAudioFile],
        Event::FormPdfPicked(path) => {
            &&& acts == none
            &&& match base.form {
                None => new == base,
                Some(_) => {
                    &&& new.form matches Some(nf) && nf == SongFormState { pdf_path: nf.pdf_path, ..f }
                        && nf.pdf_path@ == text_or_empty(path)
                    &&& new == Session { form: new.form, ..base }
                },
            }
        },
        Event::FormMp3Picked(path) => {
            &&& acts == none
            &&& match base.form {
                None => new == base,
                Some(_) => {
                    &&& new.form matches Some(nf) && nf == SongFormState { mp3_path: nf.mp3_path, ..f }
                        && nf.mp3_path@ == text_or_empty(path)
                    &&& new == Session { form: new.form, ..base }
                },
            }
        },
        Event::FormSubmit { fresh_id, now } => submit_step(old, fresh_id, now, new, acts),
        Event::SaveFinished { song, is_new, error } => save_step(old, song, is_new, error, new, acts),
        Event::FormCancel => new == Session { form: None, ..base } && acts == none,
        Event::FormTabPressed => new == base && acts == if old.form is Some {
            seq![Action::FocusNextField]
        } else {
            none
        },
        Event::AudioLoadFailed(e) => with_status(base, new, "Audio load failed: "@ + e@) && acts == none,
        Event::AudioError(e) => with_status(base, new, e@) && acts == none,
        Event::WebviewFailed(e) => with_status(base, new, "Webview unavailable: "@ + e@) && acts
            == none,
        Event::PdfRendered => new == Session { pdf_rendering: false, ..base } && acts == none,
        Event::PdfError(e) => with_status(
            Session { pdf_rendering: false, ..base },
            new,
            "PDF render failed: "@ + e@,
        ) && acts == none,
        Event::AnalyzeSync { audio_available } => analyze_step(old, audio_available, new, acts),
        Event::SyncAnalysisComplete => {
            &&& new == Session { sync_analyzing: false, ..base }
            &&& acts == match old.selected_song_id {
                Some(id) => seq![Action::SaveSyncMap(id)],
                None => none,
            }
        },
        Event::SyncSaveFinished { error } => acts == none && match error {
            Some(e) => with_status(base, new, "Failed to save sync map: "@ + e@),
            None => with_status(base, new, "Sync ready — auto-scroll active"@),
        },
        Event::SyncAnalysisFailed(e) => with_status(
            Session { sync_analyzing: false, ..base },
            new,
            "Sync analysis failed: "@ + e@,
        ) && acts == none,
        Event::DebugSync { has_sync_map } => debug_step(old, has_sync_map, new, acts),
        Event::SyncDebugFailed(e) => with_status(base, new, "Debug export failed: "@ + e@) && acts
            == none,
        Event::DebugOpenFailed(e) => with_status(base, new, "Could not open debug file: "@ + e@)
            && acts == none,
        Event::Other => new == base && acts == none,
    }
}

impl Session {
    /// Answers event `e`: updates the session and returns the actions to
    /// perform, in order (see `stepped`).
    pub fn step(&mut self, e: Event) -> (acts: Vec<Action>)
        ensures
            stepped(*old(self), e, *final(self), acts@),
    {
        match e {
            Event::SongSelected(id) => return self.select(id),
            Event::EditSong(id) => return self.edit(id),
            Event::DeleteFinished { id, error } => return self.delete_finished(id, error),
            Event::FormSubmit { fresh_id, now } => return self.submit(fresh_id, now),
            Event::SaveFinished { song, is_new, error } => return self.save_finished(song, is_new, error),
            Event::AnalyzeSync { audio_available } => return self.analyze(audio_available),
            Event::DebugSync { has_sync_map } => return self.debug(has_sync_map),
            _ => {},
        }
        self.status = None;
        let mut acts: Vec<Action> = Vec::new();
        match e {
            Event::SongsLoaded(v) => {
                self.songs = v;
            },
            Event::FilterChanged(x) => {
                self.filter = x;
            },
            Event::SearchChanged(x) => {
                self.search = x;
            },
            Event::NewSong => {
                self.form = Some(SongFormState::new());
                acts.push(Action::FocusFirstField);
            },
            Event::ConfirmDeleteSong(id) => {
                self.confirm_delete_id = Some(id);
            },
            Event::CancelDelete => {
                self.confirm_delete_id = None;
            },
            Event::DeleteSong(id) => {
                self.confirm_delete_id = None;
                acts.push(Action::DeleteFromStore(id));
            },
            Event::FormTitleChanged(v) => {
                if let Some(f) = &mut self.form {
                    f.title = v;
                }
            },
            Event::FormArtistChanged(v) => {
                if let Some(f) = &mut self.form {
                    f.artist = v;
                }
            },
            Event::FormInstrumentChanged(v) => {
                if let Some(f) = &mut self.form {
                    f.instrument = v;
                }
            },
            Event::FormYoutubeUrlChanged(v) => {
                if let Some(f) = &mut self.form {
                    f.youtube_url = v;
                }
            },
            Event::FormSpotifyUrlChanged(v) => {
                if let Some(f) = &mut self.form {
                    f.spotify_url = v;
                }
            },
            Event::FormPdfPathChanged(v) => {
                if let Some(f) = &mut self.form {
                    f.pdf_path = v;
                }
            },
            Event::FormMp3PathChanged(v) => {
                if let Some(f) = &mut self.form {
                    f.mp3_path = v;
                }
            },
            Event::FormPickPdf => {
                acts.push(Action::PickPdfFile);
            },
            Event::FormPickMp3 => {
                acts.push(Action::PickAudioFile);
            },
            Event::FormPdfPicked(path) => {
                if let Some(f) = &mut self.form {
                    f.pdf_path = crate::text::text_or_default(&path);
                }
            },
            Event::FormMp3Picked(path) => {
                if let Some(f) = &mut self.form {
                    f.mp3_path = crate::text::text_or_default(&path);
                }
            },
            Event::FormCancel => {
                self.form = None;
            },
            Event::FormTabPressed => {
                if self.form.is_some() {
                    acts.push(Action::FocusNextField);
                }
            },
            Event::AudioLoadFailed(e) => {
                self.status = status_text("Audio load failed: ", e.as_str());
            },
            Event::AudioError(e) => {
                self.status = status_line(e.as_str());
            },
            Event::WebviewFailed(e) => {
                self.status = status_text("Webview unavailable: ", e.as_str());
            },
            Event::PdfRendered => {
                self.pdf_rendering = false;
            },
            Event::PdfError(e) => {
                self.pdf_rendering = false;
                self.status = status_text("PDF render failed: ", e.as_str());
            },
            Event::SyncAnalysisComplete => {
                self.sync_analyzing = false;
                match &self.selected_song_id {
                    Some(id) => acts.push(Action::SaveSyncMap(id.clone())),
                    None => {},
                }
            },
            Event::SyncSaveFinished { error } => {
                match error {
                    Some(e) => {
                        self.status = status_text("Failed to save sync map: ", e.as_str());
                    },
                    None => {
                        self.status = status_line("Sync ready — auto-scroll active");
                    },
                }
            },
            Event::SyncAnalysisFailed(e) => {
                self.sync_analyzing = false;
                self.status = status_text("Sync analysis failed: ", e.as_str());
            },
            Event::SyncDebugFailed(e) => {
                self.status = status_text("Debug export failed: ", e.as_str());
            },
            Event::DebugOpenFailed(e) => {
                self.status = status_text("Could not open debug file: ", e.as_str());
            },
            _ => {},
        }
        proof {
            if acts@.len() == 1 {
                assert(acts@ =~= seq![acts@[0]]);
            }
            assert(acts@.len() == 0 ==> acts@ =~= Seq::<Action>::empty());
        }
        acts
    }
}

/// Once the store confirms a delete, no song with that id is left in the
/// library, and every other song is still there.
pub proof fn lemma_delete_removes(old: Session, id: String, new: Session, acts: Seq<Action>)
    requires
        delete_step(old, id, None, new, acts),
    ensures
        forall|k: int| 0 <= k < new.songs@.len() ==> (#[trigger] new.songs@[k]).id@ != id@,
        forall|k: int|
            0 <= k < old.songs@.len() && (#[trigger] old.songs@[k]).id@ != id@ ==> new.songs@.contains(
                old.songs@[k],
            ),
{
    let keep = |s: Song| s.id@ != id@;
    assert(new.songs@ == old.songs@.filter(keep));
    assert forall|k: int| 0 <= k < new.songs@.len() implies (#[trigger] new.songs@[k]).id@ != id@ by {
        old.songs@.lemma_filter_pred(keep, k);
    }
    assert forall|k: int|
        0 <= k < old.songs@.len() && (#[trigger] old.songs@[k]).id@ != id@ implies new.songs@.contains(
            old.songs@[k],
        ) by {
        old.songs@.lemma_filter_contains(keep, k);
    }
}

proof fn lemma_first_with_id(songs: Seq<Song>, id: Seq<char>)
    ensures
        first_with_id(songs, id) matches Some(k) ==> 0 <= k < songs.len() && songs[k].id@ == id,
        first_with_id(songs, id) is None ==> forall|k: int| 0 <= k < songs.len() ==> (#[trigger] songs[k]).id@ != id,
{
    if exists|k: int| 0 <= k < songs.len() && (#[trigger] songs[k]).id@ == id {
        let k0 = choose|k: int| 0 <= k < songs.len() && (#[trigger] songs[k]).id@ == id;
        lemma_least_index(songs, id, k0);
    }
}

proof fn lemma_least_index(songs: Seq<Song>, id: Seq<char>, k0: int)
    requires
        0 <= k0 < songs.len(),
        songs[k0].id@ == id,
    ensures
        exists|k: int|
            0 <= k < songs.len() && (#[trigger] songs[k]).id@ == id && forall|j: int|
                0 <= j < k ==> (#[trigger] songs[j]).id@ != id,
    decreases k0,
{
    if exists|j: int| 0 <= j < k0 && (#[trigger] songs[j]).id@ == id {
        let j = choose|j: int| 0 <= j < k0 && (#[trigger] songs[j]).id@ == id;
        lemma_least_index(songs, id, j);
    } else {
        assert(forall|j: int| 0 <= j < k0 ==> (#[trigger] songs[j]).id@ != id);
    }
}

/// Once the store confirms a save of a new song, or of one the library
/// holds, the saved song is in the library and selected, the library has
/// grown by one song exactly when the song was new, and it is in order by
/// artist and title.
pub proof fn lemma_saved_song_listed(old: Session, song: Song, is_new: bool, new: Session, acts: Seq<Action>)
    requires
        save_step(old, song, is_new, None, new, acts),
        is_new || exists|k: int| 0 <= k < old.songs@.len() && (#[trigger] old.songs@[k]).id@ == song.id@,
    ensures
        new.songs@.contains(song),
        new.selected_song_id == Some(song.id),
        new.songs@.len() == old.songs@.len() + if is_new { 1int } else { 0int },
        forall|k: int, k2: int| 0 <= k < k2 < new.songs@.len() ==> !song_before(#[trigger] new.songs@[k2], #[trigger] new.songs@[k]),
{
    let saved = with_saved(old.songs@, song, is_new);
    let perm = choose|perm: Seq<int>| stably_sorted(saved, new.songs@, perm);
    let at: int = if is_new {
        old.songs@.len() as int
    } else {
        match first_with_id(old.songs@, song.id@) {
            Some(k) => k,
            None => -1,
        }
    };
    lemma_first_with_id(old.songs@, song.id@);
    if at >= 0 {
        assert(saved[at] == song);
        assert(listed(perm, at));
        let k = choose|k: int| 0 <= k < perm.len() && perm[k] == at;
        assert(new.songs@[k] == song);
    } else {
        let k = choose|k: int| 0 <= k < old.songs@.len() && (#[trigger] old.songs@[k]).id@ == song.id@;
        assert(old.songs@[k].id@ == song.id@);
    }
}

} // verus!
