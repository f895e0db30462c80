use monotabe::model::{Instrument, InstrumentFilter, Song};
use monotabe::session::{debug_refusal, Action, DebugRefusal, Event, Session};

fn song(id: &str, title: &str, artist: &str) -> Song {
    Song::with_identity(id.to_string(), 1, title.to_string(), artist.to_string(), Instrument::Guitar)
}

#[test]
fn selecting_a_song_loads_its_media() {
    let mut s0 = song("a", "T", "A");
    s0.mp3_path = Some("/a.mp3".to_string());
    s0.pdf_path = Some("/a.pdf".to_string());
    let mut s = Session::new(vec![s0, song("b", "U", "B")]);
    s.status = Some("old".to_string());
    let acts = s.step(Event::SongSelected("a".to_string()));
    assert_eq!(s.selected_song_id.as_deref(), Some("a"));
    assert!(s.status.is_none());
    assert!(s.pdf_rendering);
    assert_eq!(acts.len(), 7);
    assert!(matches!(acts[0], Action::ClearPdfPages));
    assert!(matches!(&acts[4], Action::LoadAudio(p) if p == "/a.mp3"));
    assert!(matches!(&acts[5], Action::LoadSyncMap(id) if id == "a"));
    assert!(matches!(&acts[6], Action::RenderPdf { pdf_path, song_id } if pdf_path == "/a.pdf" && song_id == "a"));

    let acts = s.step(Event::SongSelected("b".to_string()));
    assert!(!s.pdf_rendering);
    assert_eq!(acts.len(), 6);
    assert!(matches!(acts[4], Action::StopAudio));

    let acts = s.step(Event::SongSelected("missing".to_string()));
    assert_eq!(acts.len(), 4);
}

#[test]
fn adding_a_song_goes_through_the_store() {
    let mut s = Session::new(vec![song("b", "Zed", "Beta")]);
    let acts = s.step(Event::NewSong);
    assert!(matches!(acts[0], Action::FocusFirstField));
    s.step(Event::FormTitleChanged(" Alpha song ".to_string()));
    // Not valid yet: no artist.
    let acts = s.step(Event::FormSubmit { fresh_id: "n".to_string(), now: 9 });
    assert!(acts.is_empty());
    s.step(Event::FormArtistChanged("Alpha".to_string()));
    s.step(Event::FormInstrumentChanged(Instrument::Bass));
    let mut acts = s.step(Event::FormSubmit { fresh_id: "n".to_string(), now: 9 });
    assert_eq!(acts.len(), 1);
    let (saved, is_new) = match acts.remove(0) {
        Action::SaveSong { song, is_new } => (song, is_new),
        _ => panic!("expected a save"),
    };
    assert!(is_new);
    assert_eq!(saved.title, "Alpha song");
    assert_eq!(saved.instrument, Instrument::Bass);

    // The store fails: the form stays open.
    s.step(Event::SaveFinished { song: song("x", "x", "x"), is_new: true, error: Some("disk full".to_string()) });
    assert_eq!(s.status.as_deref(), Some("Save failed: disk full"));
    assert!(s.form.is_some());

    // The store succeeds: the song is listed in order and selected.
    s.step(Event::SaveFinished { song: saved, is_new: true, error: None });
    assert!(s.form.is_none());
    assert_eq!(s.selected_song_id.as_deref(), Some("n"));
    let ids: Vec<&str> = s.songs.iter().map(|x| x.id.as_str()).collect();
    assert_eq!(ids, vec!["n", "b"]);
}

#[test]
fn editing_replaces_the_stored_song() {
    let mut s = Session::new(vec![song("a", "One", "A"), song("b", "Two", "B")]);
    let acts = s.step(Event::EditSong("b".to_string()));
    assert_eq!(acts.len(), 1);
    s.step(Event::FormArtistChanged("0 first".to_string()));
    let mut acts = s.step(Event::FormSubmit { fresh_id: "unused".to_string(), now: 5 });
    let (saved, is_new) = match acts.remove(0) {
        Action::SaveSong { song, is_new } => (song, is_new),
        _ => panic!("expected a save"),
    };
    assert!(!is_new);
    assert_eq!(saved.id, "b");
    assert_eq!(saved.created_at, 1);
    assert_eq!(saved.updated_at, 5);
    s.step(Event::SaveFinished { song: saved, is_new, error: None });
    let ids: Vec<&str> = s.songs.iter().map(|x| x.id.as_str()).collect();
    assert_eq!(ids, vec!["b", "a"]);
    assert_eq!(s.songs.len(), 2);
}

#[test]
fn deleting_the_selected_song_clears_it() {
    let mut s = Session::new(vec![song("a", "One", "A"), song("b", "Two", "B")]);
    s.step(Event::SongSelected("a".to_string()));
    s.step(Event::ConfirmDeleteSong("a".to_string()));
    assert_eq!(s.confirm_delete_id.as_deref(), Some("a"));
    let acts = s.step(Event::DeleteSong("a".to_string()));
    assert!(s.confirm_delete_id.is_none());
    assert!(matches!(&acts[0], Action::DeleteFromStore(id) if id == "a"));
    let acts = s.step(Event::DeleteFinished { id: "a".to_string(), error: None });
    assert_eq!(acts.len(), 3);
    assert!(s.selected_song_id.is_none());
    assert_eq!(s.songs.len(), 1);
    assert_eq!(s.songs[0].id, "b");
    let acts = s.step(Event::DeleteFinished { id: "b".to_string(), error: Some("locked".to_string()) });
    assert!(acts.is_empty());
    assert_eq!(s.status.as_deref(), Some("Delete failed: locked"));
    assert_eq!(s.songs.len(), 1);
}

#[test]
fn analysis_needs_a_tab_and_audio() {
    let mut with_pdf = song("a", "One", "A");
    with_pdf.pdf_path = Some("/a.pdf".to_string());
    let mut s = Session::new(vec![with_pdf, song("b", "Two", "B")]);
    assert!(s.step(Event::AnalyzeSync { audio_available: true }).is_empty());
    s.step(Event::SongSelected("b".to_string()));
    s.step(Event::AnalyzeSync { audio_available: true });
    assert_eq!(s.status.as_deref(), Some("Attach both a PDF and MP3 before analyzing"));
    s.step(Event::SongSelected("a".to_string()));
    s.step(Event::AnalyzeSync { audio_available: false });
    assert_eq!(s.status.as_deref(), Some("Attach both a PDF and MP3 before analyzing"));
    let acts = s.step(Event::AnalyzeSync { audio_available: true });
    assert!(s.sync_analyzing);
    assert!(matches!(&acts[0], Action::GenerateSync { pdf_path, song_id } if pdf_path == "/a.pdf" && song_id == "a"));
    let acts = s.step(Event::SyncAnalysisComplete);
    assert!(!s.sync_analyzing);
    assert!(matches!(&acts[0], Action::SaveSyncMap(id) if id == "a"));
    s.step(Event::SyncSaveFinished { error: None });
    assert_eq!(s.status.as_deref(), Some("Sync ready — auto-scroll active"));
    s.step(Event::SyncAnalysisFailed("boom".to_string()));
    assert_eq!(s.status.as_deref(), Some("Sync analysis failed: boom"));
}

#[test]
fn debug_export_needs_a_sync_map() {
    let mut s = Session::new(vec![song("a", "One", "A")]);
    s.step(Event::DebugSync { has_sync_map: false });
    assert_eq!(s.status.as_deref(), Some("No sync map — run Analyze Sync first"));
    let acts = s.step(Event::DebugSync { has_sync_map: true });
    assert!(matches!(&acts[0], Action::GenerateDebug { song_title, source_pdf } if song_title.is_empty() && source_pdf.is_none()));
    s.step(Event::SongSelected("a".to_string()));
    let acts = s.step(Event::DebugSync { has_sync_map: true });
    assert!(matches!(&acts[0], Action::GenerateDebug { song_title, .. } if song_title == "One"));
}

#[test]
fn filters_search_and_statuses() {
    let mut s = Session::new(vec![]);
    s.step(Event::FilterChanged(InstrumentFilter::Bass));
    s.step(Event::SearchChanged("muse".to_string()));
    assert_eq!(s.filter, InstrumentFilter::Bass);
    assert_eq!(s.search, "muse");
    s.step(Event::PdfError("no pdftoppm".to_string()));
    assert_eq!(s.status.as_deref(), Some("PDF render failed: no pdftoppm"));
    s.step(Event::Other);
    assert!(s.status.is_none());
    s.step(Event::AudioError("device lost".to_string()));
    assert_eq!(s.status.as_deref(), Some("device lost"));
    // Form edits without an open form change nothing.
    s.step(Event::FormTitleChanged("x".to_string()));
    assert!(s.form.is_none());
    assert!(s.step(Event::FormTabPressed).is_empty());
    s.step(Event::NewSong);
    s.step(Event::FormPdfPicked(Some("/p.pdf".to_string())));
    assert_eq!(s.form.as_ref().unwrap().pdf_path, "/p.pdf");
    s.step(Event::FormPdfPicked(None));
    assert_eq!(s.form.as_ref().unwrap().pdf_path, "");
    assert_eq!(s.step(Event::FormTabPressed).len(), 1);
    s.step(Event::FormCancel);
    assert!(s.form.is_none());
}

#[test]
fn debug_export_needs_pages_then_points() {
    assert_eq!(debug_refusal(0, 0), Some(DebugRefusal::NoPages));
    assert_eq!(debug_refusal(0, 5), Some(DebugRefusal::NoPages));
    assert_eq!(debug_refusal(3, 0), Some(DebugRefusal::NoSyncPoints));
    assert_eq!(debug_refusal(3, 5), None);
}
