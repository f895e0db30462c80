use monotabe::form::SongFormState;
use monotabe::library::{instrument_from_db, sort_songs, text_less, visible_songs};
use monotabe::model::{unix_now, unix_seconds, Instrument, InstrumentFilter, MediaSource, Song};

fn song(id: &str, title: &str, artist: &str, instrument: Instrument) -> Song {
    Song::with_identity(id.to_string(), 100, title.to_string(), artist.to_string(), instrument)
}

#[test]
fn instrument_names_round_trip() {
    assert_eq!(Instrument::from_str("guitar"), Some(Instrument::Guitar));
    assert_eq!(Instrument::from_str("bass"), Some(Instrument::Bass));
    assert_eq!(Instrument::from_str("Guitar"), None);
    assert_eq!(Instrument::from_str(""), None);
    assert_eq!(Instrument::Guitar.as_str(), "guitar");
    assert_eq!(Instrument::Bass.as_str(), "bass");
    for i in [Instrument::Guitar, Instrument::Bass] {
        assert_eq!(Instrument::from_str(i.as_str()), Some(i));
    }
}

#[test]
fn unknown_stored_instrument_reads_as_guitar() {
    assert_eq!(instrument_from_db("bass"), Instrument::Bass);
    assert_eq!(instrument_from_db("ukulele"), Instrument::Guitar);
}

#[test]
fn filter_defaults_to_all_and_admits() {
    assert_eq!(InstrumentFilter::default(), InstrumentFilter::All);
    assert!(InstrumentFilter::All.admits(Instrument::Bass));
    assert!(InstrumentFilter::Guitar.admits(Instrument::Guitar));
    assert!(!InstrumentFilter::Guitar.admits(Instrument::Bass));
    assert!(InstrumentFilter::Bass.admits(Instrument::Bass));
}

#[test]
fn media_sources_hold_their_text() {
    let m = MediaSource::PdfPath("/tmp/tab.pdf".to_string());
    match m.clone() {
        MediaSource::PdfPath(p) => assert_eq!(p, "/tmp/tab.pdf"),
        _ => panic!("wrong variant"),
    }
}

#[test]
fn new_song_has_fresh_id_and_no_links() {
    let a = Song::new("Title".to_string(), "Artist".to_string(), Instrument::Bass);
    let b = Song::new("Title".to_string(), "Artist".to_string(), Instrument::Bass);
    assert_eq!(a.id.len(), 36);
    assert_eq!(a.id.chars().nth(14), Some('4'));
    assert!(matches!(a.id.chars().nth(19), Some('8' | '9' | 'a' | 'b')));
    for (k, c) in a.id.chars().enumerate() {
        if [8, 13, 18, 23].contains(&k) {
            assert_eq!(c, '-');
        } else {
            assert!(c.is_ascii_digit() || ('a'..='f').contains(&c));
        }
    }
    assert_ne!(a.id, b.id);
    assert_eq!(a.title, "Title");
    assert_eq!(a.artist, "Artist");
    assert_eq!(a.instrument, Instrument::Bass);
    assert!(a.youtube_url.is_none() && a.spotify_url.is_none());
    assert!(a.pdf_path.is_none() && a.mp3_path.is_none());
    assert_eq!(a.created_at, a.updated_at);
    assert!(a.created_at > 1_600_000_000);
}

#[test]
fn duplicate_copies_every_field() {
    let mut a = Song::with_identity("id-7".to_string(), 42, "Hysteria".to_string(), "Muse".to_string(), Instrument::Bass);
    a.pdf_path = Some("/tabs/hysteria.pdf".to_string());
    a.updated_at = 99;
    let b = a.duplicate();
    assert_eq!(b.id, "id-7");
    assert_eq!(b.title, "Hysteria");
    assert_eq!(b.artist, "Muse");
    assert_eq!(b.instrument, Instrument::Bass);
    assert_eq!(b.pdf_path.as_deref(), Some("/tabs/hysteria.pdf"));
    assert!(b.youtube_url.is_none() && b.spotify_url.is_none() && b.mp3_path.is_none());
    assert_eq!((b.created_at, b.updated_at), (42, 99));
}

#[test]
fn new_form_is_empty() {
    let f = SongFormState::new();
    assert!(f.editing_id.is_none());
    assert!(f.title.is_empty() && f.artist.is_empty());
    assert_eq!(f.instrument, Instrument::Guitar);
    assert!(!f.is_valid());
}

#[test]
fn form_validity_ignores_white_space() {
    let mut f = SongFormState::new();
    f.title = "  Song ".to_string();
    f.artist = "\t".to_string();
    assert!(!f.is_valid());
    f.artist = " Band".to_string();
    assert!(f.is_valid());
}

#[test]
fn form_from_song_and_back() {
    let mut s = song("id-1", "Title", "Artist", Instrument::Bass);
    s.pdf_path = Some("/x.pdf".to_string());
    let f = SongFormState::from_song(&s);
    assert_eq!(f.editing_id.as_deref(), Some("id-1"));
    assert_eq!(f.original_created_at, Some(100));
    assert_eq!(f.pdf_path, "/x.pdf");
    assert_eq!(f.mp3_path, "");
    let back = f.to_song_at("unused".to_string(), 500);
    assert_eq!(back.id, "id-1");
    assert_eq!(back.title, "Title");
    assert_eq!(back.pdf_path.as_deref(), Some("/x.pdf"));
    assert!(back.mp3_path.is_none());
    assert_eq!(back.created_at, 100);
    assert_eq!(back.updated_at, 500);
}

#[test]
fn saving_a_new_form_trims_and_drops_blank_links() {
    let mut f = SongFormState::new();
    f.title = "  Nothing Else Matters ".to_string();
    f.artist = "Metallica\n".to_string();
    f.youtube_url = "   ".to_string();
    f.spotify_url = " https://open.spotify.com/x ".to_string();
    let s = f.to_song_at("fresh".to_string(), 42);
    assert_eq!(s.id, "fresh");
    assert_eq!(s.title, "Nothing Else Matters");
    assert_eq!(s.artist, "Metallica");
    assert!(s.youtube_url.is_none());
    assert_eq!(s.spotify_url.as_deref(), Some("https://open.spotify.com/x"));
    assert_eq!(s.created_at, 42);
    assert_eq!(s.updated_at, 42);
    let t = f.to_song();
    assert_eq!(t.id.len(), 36);
    assert_eq!(t.created_at, t.updated_at);
}

#[test]
fn text_order_is_by_character() {
    assert!(text_less("Abba", "Beatles"));
    assert!(!text_less("Beatles", "Abba"));
    assert!(text_less("Abb", "Abba"));
    assert!(!text_less("Abba", "Abba"));
    assert!(text_less("Z", "a"));
}

#[test]
fn songs_sort_by_artist_then_title_stably() {
    let songs = vec![
        song("1", "b", "Y", Instrument::Guitar),
        song("2", "a", "Y", Instrument::Guitar),
        song("3", "z", "X", Instrument::Bass),
        song("4", "a", "Y", Instrument::Bass),
    ];
    let sorted = sort_songs(songs);
    let ids: Vec<&str> = sorted.iter().map(|s| s.id.as_str()).collect();
    assert_eq!(ids, vec!["3", "2", "4", "1"]);
}

#[test]
fn visible_songs_follow_filter_and_search() {
    let songs = vec![
        song("1", "Master of Puppets", "Metallica", Instrument::Guitar),
        song("2", "Hysteria", "Muse", Instrument::Bass),
        song("3", "One", "METALLICA", Instrument::Bass),
    ];
    assert_eq!(visible_songs(&songs, InstrumentFilter::All, ""), vec![0, 1, 2]);
    assert_eq!(visible_songs(&songs, InstrumentFilter::Bass, ""), vec![1, 2]);
    assert_eq!(visible_songs(&songs, InstrumentFilter::All, "metal"), vec![0, 2]);
    assert_eq!(visible_songs(&songs, InstrumentFilter::Guitar, "MUSE"), Vec::<usize>::new());
    assert_eq!(visible_songs(&songs, InstrumentFilter::All, "hyst"), vec![1]);
    assert_eq!(visible_songs(&songs, InstrumentFilter::All, "MuSe"), vec![1]);
}

#[test]
fn clock_readings_become_unix_times() {
    assert_eq!(unix_seconds(None), 0);
    assert_eq!(unix_seconds(Some(0)), 0);
    assert_eq!(unix_seconds(Some(1_700_000_000)), 1_700_000_000);
    assert_eq!(unix_seconds(Some(i64::MAX as u64)), i64::MAX);
    assert_eq!(unix_seconds(Some(u64::MAX)), -1);
    assert_eq!(unix_seconds(Some(1u64 << 63)), i64::MIN);
    assert!(unix_now() > 1_600_000_000);
}
