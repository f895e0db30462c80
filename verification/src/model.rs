//! The song library's records.
use vstd::prelude::*;
use crate::text::{str_equal, opt_text};

verus! {

/// The instrument a tab is written for.
#[derive(Clone, Copy, Debug, PartialEq, Eq, Structural)]
pub enum Instrument {
    Guitar,
    Bass,
}

/// The name under which an instrument is shown and stored.
pub open spec fn instrument_name(i: Instrument) -> Seq<char> {
    match i {
        Instrument::Guitar => "guitar"@,
        Instrument::Bass => "bass"@,
    }
}

/// The instrument stored under `name`, if any.
pub open spec fn instrument_named(name: Seq<char>) -> Option<Instrument> {
    if name == "guitar"@ {
        Some(Instrument::Guitar)
    } else if name == "bass"@ {
        Some(Instrument::Bass)
    } else {
        None
    }
}

impl Instrument {
    /// The instrument's name, as it is displayed and stored.
    pub fn as_str(&self) -> (s: &'static str)
        ensures
            s@ == instrument_name(*self),
    {
        match self {
            Instrument::Guitar => "guitar",
            Instrument::Bass => "bass",
        }
    }

    /// The instrument stored under `s`.
    pub fn from_str(s: &str) -> (r: Option<Instrument>)
        ensures
            r == instrument_named(s@),
    {
        if str_equal(s, "guitar") {
            Some(Instrument::Guitar)
        } else if str_equal(s, "bass") {
            Some(Instrument::Bass)
        } else {
            None
        }
    }
}

/// A stored name reads back as the instrument it was stored for, and no two
/// instruments share a name.
pub proof fn lemma_instrument_name_round_trip(i: Instrument, j: Instrument)
    ensures
        instrument_named(instrument_name(i)) == Some(i),
        instrument_name(i) == instrument_name(j) ==> i == j,
{
    reveal_strlit("guitar");
    reveal_strlit("bass");
    assert("guitar"@ != "bass"@) by {
        assert("guitar"@.len() != "bass"@.len());
    }
}

/// Which songs the library list shows.
#[derive(Clone, Copy, Debug, PartialEq, Eq, Structural)]
pub enum InstrumentFilter {
    All,
    Guitar,
    Bass,
}

impl Default for InstrumentFilter {
    fn default() -> (f: InstrumentFilter)
        ensures
            f == InstrumentFilter::All,
    {
        InstrumentFilter::All
    }
}

/// Whether a filter lets songs for `i` through.
pub open spec fn filter_admits(f: InstrumentFilter, i: Instrument) -> bool {
    match f {
        InstrumentFilter::All => true,
        InstrumentFilter::Guitar => i == Instrument::Guitar,
        InstrumentFilter::Bass => i == Instrument::Bass,
    }
}

impl InstrumentFilter {
    /// Whether this filter lets songs for `i` through.
    pub fn admits(&self, i: Instrument) -> (b: bool)
        ensures
            b == filter_admits(*self, i),
    {
        match self {
            InstrumentFilter::All => true,
            InstrumentFilter::Guitar => i == Instrument::Guitar,
            InstrumentFilter::Bass => i == Instrument::Bass,
        }
    }
}

/// A place a song's media can come from.
#[derive(Clone, Debug)]
pub enum MediaSource {
    YoutubeUrl(String),
    SpotifyUrl(String),
    PdfPath(String),
    Mp3Path(String),
}

/// A song of the library.
pub struct Song {
    pub id: String,
    pub title: String,
    pub artist: String,
    pub instrument: Instrument,
    pub youtube_url: Option<String>,
    pub spotify_url: Option<String>,
    pub pdf_path: Option<String>,
    pub mp3_path: Option<String>,
    /// Seconds since the Unix epoch.
    pub created_at: i64,
    /// Seconds since the Unix epoch.
    pub updated_at: i64,
}

/// Two songs hold the same values.
pub open spec fn same_song(a: Song, b: Song) -> bool {
    &&& a.id@ == b.id@
    &&& a.title@ == b.title@
    &&& a.artist@ == b.artist@
    &&& a.instrument == b.instrument
    &&& opt_text(a.youtube_url) == opt_text(b.youtube_url)
    &&& opt_text(a.spotify_url) == opt_text(b.spotify_url)
    &&& opt_text(a.pdf_path) == opt_text(b.pdf_path)
    &&& opt_text(a.mp3_path) == opt_text(b.mp3_path)
    &&& a.created_at == b.created_at
    &&& a.updated_at == b.updated_at
}

/// A lower-case hexadecimal digit.
pub open spec fn is_lower_hex(c: char) -> bool {
    ('0' <= c && c <= '9') || ('a' <= c && c <= 'f')
}

/// The text of a random (version 4, RFC 4122 variant) UUID in hyphenated
/// lower-case form `xxxxxxxx-xxxx-4xxx-Yxxx-xxxxxxxxxxxx`: 36 characters,
/// hyphens at 8, 13, 18 and 23, lower-case hex digits elsewhere, the
/// version digit `4` at 14 and a variant digit `8`, `9`, `a` or `b` at 19.
pub open spec fn uuid_v4_text(s: Seq<char>) -> bool {
    &&& s.len() == 36
    &&& s[8] == '-' && s[13] == '-' && s[18] == '-' && s[23] == '-'
    &&& forall|k: int|
        0 <= k < 36 && k != 8 && k != 13 && k != 18 && k != 23 ==> is_lower_hex(#[trigger] s[k])
    &&& s[14] == '4'
    &&& (s[19] == '8' || s[19] == '9' || s[19] == 'a' || s[19] == 'b')
}

/// A fresh random identifier: `Uuid::new_v4().to_string()`. Its value is
/// random; its shape is stated: `new_v4` sets the version bits to 4 and the
/// variant bits to `10`, and `Display` writes the hyphenated lower-case
/// form (`uuid_v4_text`).
#[verifier::external_body]
pub(crate) fn new_song_id() -> (id: String)
    ensures
        uuid_v4_text(id@),
{
    uuid::Uuid::new_v4().to_string()
}

#[verifier::external_type_specification]
#[verifier::external_body]
pub struct ExSystemTime(std::time::SystemTime);

/// `SystemTime::now`: the system clock's reading. Nothing is stated of it:
/// it is the time.
#[verifier::external_body]
fn clock_now() -> (t: std::time::SystemTime) {
    std::time::SystemTime::now()
}

/// `SystemTime::duration_since(UNIX_EPOCH)`: how long after the Unix epoch
/// `t` lies, or `None` when it lies before it. Nothing is stated of the
/// value, which depends on a clock reading.
#[verifier::external_body]
fn since_epoch(t: std::time::SystemTime) -> (d: Option<std::time::Duration>) {
    match t.duration_since(std::time::UNIX_EPOCH) {
        Ok(d) => Some(d),
        Err(_) => None,
    }
}

/// `Duration::as_secs`: the whole seconds of `d`. Nothing is stated of the
/// value: it is a reading of the clock.
#[verifier::external_body]
fn whole_seconds(d: std::time::Duration) -> (s: u64) {
    d.as_secs()
}

/// The Unix time that a clock reading of `secs` whole seconds after the
/// epoch gives (`None`: the clock reads before the epoch): zero for `None`,
/// else the seconds as an `i64`, wrapped as `as i64` wraps them.
pub open spec fn unix_time_of(secs: Option<u64>) -> int {
    match secs {
        Some(s) => if s <= i64::MAX {
            s as int
        } else {
            s - 0x1_0000_0000_0000_0000
        },
        None => 0,
    }
}

/// The Unix time for a clock reading of `secs` whole seconds after the
/// epoch (see `unix_time_of`).
pub fn unix_seconds(secs: Option<u64>) -> (t: i64)
    ensures
        t == unix_time_of(secs),
{
    match secs {
        Some(s) => if s <= 0x7fff_ffff_ffff_ffff {
            s as i64
        } else {
            ((s - 0x8000_0000_0000_0000) as i64) + i64::MIN
        },
        None => 0,
    }
}

/// The current Unix time in seconds; zero when the clock reads before the
/// epoch (`unix_seconds` of the clock's reading).
pub fn unix_now() -> (t: i64) {
    let secs = match since_epoch(clock_now()) {
        Some(d) => Some(whole_seconds(d)),
        None => None,
    };
    unix_seconds(secs)
}

impl Song {
    /// A song with the given identity and creation time, and no links.
    pub fn with_identity(id: String, now: i64, title: String, artist: String, instrument: Instrument) -> (s: Song)
        ensures
            s.id@ == id@,
            s.title@ == title@,
            s.artist@ == artist@,
            s.instrument == instrument,
            s.youtube_url is None,
            s.spotify_url is None,
            s.pdf_path is None,
            s.mp3_path is None,
            s.created_at == now,
            s.updated_at == now,
    {
        Song {
            id,
            title,
            artist,
            instrument,
            youtube_url: None,
            spotify_url: None,
            pdf_path: None,
            mp3_path: None,
            created_at: now,
            updated_at: now,
        }
    }

    /// A new song with a fresh random id, created now, with no links.
    pub fn new(title: String, artist: String, instrument: Instrument) -> (s: Song)
        ensures
            uuid_v4_text(s.id@),
            s.title@ == title@,
            s.artist@ == artist@,
            s.instrument == instrument,
            s.youtube_url is None,
            s.spotify_url is None,
            s.pdf_path is None,
            s.mp3_path is None,
            s.created_at == s.updated_at,
    {
        let now = unix_now();
        Song::with_identity(new_song_id(), now, title, artist, instrument)
    }

    /// A copy of this song.
    pub fn duplicate(&self) -> (s: Song)
        ensures
            same_song(s, *self),
    {
        Song {
            id: self.id.clone(),
            title: self.title.clone(),
            artist: self.artist.clone(),
            instrument: self.instrument,
            youtube_url: crate::text::copy_opt(&self.youtube_url),
            spotify_url: crate::text::copy_opt(&self.spotify_url),
            pdf_path: crate::text::copy_opt(&self.pdf_path),
            mp3_path: crate::text::copy_opt(&self.mp3_path),
            created_at: self.created_at,
            updated_at: self.updated_at,
        }
    }
}

} // verus!
