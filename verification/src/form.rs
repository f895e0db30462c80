//! The add/edit song form.
use vstd::prelude::*;
use crate::model::{Instrument, Song, new_song_id, unix_now, uuid_v4_text};
use crate::text::{
    is_blank, trim, non_empty, text_or_default, trim_seq, opt_text, text_or_empty, non_empty_text,
};

verus! {

/// What the song form holds while the user edits it.
pub struct SongFormState {
    /// The id of the song being edited; `None` for a new song.
    pub editing_id: Option<String>,
    /// The creation time of the song being edited.
    pub original_created_at: Option<i64>,
    pub title: String,
    pub artist: String,
    pub instrument: Instrument,
    pub youtube_url: String,
    pub spotify_url: String,
    pub pdf_path: String,
    pub mp3_path: String,
}

/// The form can be saved: title and artist are not blank.
pub open spec fn form_valid(f: SongFormState) -> bool {
    trim_seq(f.title@).len() > 0 && trim_seq(f.artist@).len() > 0
}

/// The song that saving form `f` gives, with `fresh_id` as the id of a new
/// song and `now` as the time: the text fields trimmed, blank links left
/// out, the creation time kept when editing.
pub open spec fn form_song(f: SongFormState, fresh_id: Seq<char>, now: i64, s: Song) -> bool {
    &&& s.id@ == match f.editing_id {
        Some(id) => id@,
        None => fresh_id,
    }
    &&& s.title@ == trim_seq(f.title@)
    &&& s.artist@ == trim_seq(f.artist@)
    &&& s.instrument == f.instrument
    &&& opt_text(s.youtube_url) == non_empty_text(f.youtube_url@)
    &&& opt_text(s.spotify_url) == non_empty_text(f.spotify_url@)
    &&& opt_text(s.pdf_path) == non_empty_text(f.pdf_path@)
    &&& opt_text(s.mp3_path) == non_empty_text(f.mp3_path@)
    &&& s.created_at == match f.original_created_at {
        Some(t) => t,
        None => now,
    }
    &&& s.updated_at == now
}

/// The form filled in from song `s`, for editing it.
pub open spec fn form_of(s: Song, f: SongFormState) -> bool {
    &&& opt_text(f.editing_id) == Some(s.id@)
    &&& f.original_created_at == Some(s.created_at)
    &&& f.title@ == s.title@
    &&& f.artist@ == s.artist@
    &&& f.instrument == s.instrument
    &&& f.youtube_url@ == text_or_empty(s.youtube_url)
    &&& f.spotify_url@ == text_or_empty(s.spotify_url)
    &&& f.pdf_path@ == text_or_empty(s.pdf_path)
    &&& f.mp3_path@ == text_or_empty(s.mp3_path)
}

impl SongFormState {
    /// An empty form for a new guitar song.
    pub fn new() -> (f: SongFormState)
        ensures
            f.editing_id is None,
            f.original_created_at is None,
            f.title@.len() == 0,
            f.artist@.len() == 0,
            f.instrument == Instrument::Guitar,
            f.youtube_url@.len() == 0,
            f.spotify_url@.len() == 0,
            f.pdf_path@.len() == 0,
            f.mp3_path@.len() == 0,
    {
        SongFormState {
            editing_id: None,
            original_created_at: None,
            title: String::new(),
            artist: String::new(),
            instrument: Instrument::Guitar,
            youtube_url: String::new(),
            spotify_url: String::new(),
            pdf_path: String::new(),
            mp3_path: String::new(),
        }
    }

    /// The form for editing `song`: its fields, a missing link as empty text.
    pub fn from_song(song: &Song) -> (f: SongFormState)
        ensures
            form_of(*song, f),
    {
        SongFormState {
            editing_id: Some(song.id.clone()),
            original_created_at: Some(song.created_at),
            title: song.title.clone(),
            artist: song.artist.clone(),
            instrument: song.instrument,
            youtube_url: text_or_default(&song.youtube_url),
            spotify_url: text_or_default(&song.spotify_url),
            pdf_path: text_or_default(&song.pdf_path),
            mp3_path: text_or_default(&song.mp3_path),
        }
    }

    /// Whether the form can be saved: title and artist are not blank.
    pub fn is_valid(&self) -> (b: bool)
        ensures
            b == form_valid(*self),
    {
        !is_blank(self.title.as_str()) && !is_blank(self.artist.as_str())
    }

    /// The song the form describes, with `fresh_id` as the id of a new song
    /// and `now` as the save time.
    pub fn to_song_at(&self, fresh_id: String, now: i64) -> (s: Song)
        ensures
            form_song(*self, fresh_id@, now, s),
    {
        let id = match &self.editing_id {
            Some(id) => id.clone(),
            None => fresh_id,
        };
        let created_at = match self.original_created_at {
            Some(t) => t,
            None => now,
        };
        Song {
            id,
            title: trim(self.title.as_str()),
            artist: trim(self.artist.as_str()),
            instrument: self.instrument,
            youtube_url: non_empty(self.youtube_url.as_str()),
            spotify_url: non_empty(self.spotify_url.as_str()),
            pdf_path: non_empty(self.pdf_path.as_str()),
            mp3_path: non_empty(self.mp3_path.as_str()),
            created_at,
            updated_at: now,
        }
    }

    /// The song the form describes, saved now; a new song gets a fresh
    /// random id.
    pub fn to_song(&self) -> (s: Song)
        ensures
            exists|fresh: Seq<char>, now: i64| #[trigger] form_song(*self, fresh, now, s),
            self.editing_id is None ==> uuid_v4_text(s.id@),
    {
        let now = unix_now();
        let fresh = match &self.editing_id {
            Some(_) => String::new(),
            None => new_song_id(),
        };
        let ghost fresh_view = fresh@;
        let s = self.to_song_at(fresh, now);
        assert(form_song(*self, fresh_view, now, s));
        s
    }
}

/// A link as the form saves it back: trimmed, non-empty, or absent.
pub open spec fn link_kept(l: Option<String>) -> bool {
    match l {
        Some(t) => trim_seq(t@) == t@ && t@.len() > 0,
        None => true,
    }
}

/// Opening a saved song in the form and saving it unchanged gives the same
/// song back, but for its update time: the form neither loses nor alters a
/// field that saving has already normalised.
pub proof fn lemma_edit_round_trip(song: Song, f: SongFormState, fresh: Seq<char>, now: i64, saved: Song)
    requires
        form_of(song, f),
        form_song(f, fresh, now, saved),
        trim_seq(song.title@) == song.title@,
        trim_seq(song.artist@) == song.artist@,
        link_kept(song.youtube_url),
        link_kept(song.spotify_url),
        link_kept(song.pdf_path),
        link_kept(song.mp3_path),
    ensures
        saved.id@ == song.id@,
        saved.title@ == song.title@,
        saved.artist@ == song.artist@,
        saved.instrument == song.instrument,
        opt_text(saved.youtube_url) == opt_text(song.youtube_url),
        opt_text(saved.spotify_url) == opt_text(song.spotify_url),
        opt_text(saved.pdf_path) == opt_text(song.pdf_path),
        opt_text(saved.mp3_path) == opt_text(song.mp3_path),
        saved.created_at == song.created_at,
        saved.updated_at == now,
{
    assert(trim_seq(Seq::<char>::empty()).len() == 0) by {
        assert(crate::text::trim_start_seq(Seq::<char>::empty()) == Seq::<char>::empty());
    }
}

} // verus!
