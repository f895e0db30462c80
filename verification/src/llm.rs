//! The request that asks a language model for a timing map of a tab, and
//! the clean-up of its reply.
use vstd::prelude::*;
use base64::Engine;
use crate::text::{
    chars_of, string_from_chars, trim_seq, trim, decimal, decimal_string, concat_str,
};

verus! {

pub const INTRO_HEAD: &'static str = "You are analyzing ";

pub const INTRO_PAGES: &'static str = " page(s) of a guitar/bass tablature PDF.\n\
    The audio recording is exactly ";

pub const INTRO_DURATION: &'static str = " seconds long.\n\
    \n\
    Your job is to produce a precise timing map so the tab can auto-scroll in sync with the audio.\n\
    \n\
    STEP 1 — Count measures:\n\
    Look at each page carefully. In guitar/bass tab, measures are separated by VERTICAL BAR LINES\n\
    that cross all 6 (guitar) or 4 (bass) strings. Count every measure on every page.\n\
    \n\
    STEP 2 — Find tempo:\n\
    Look for a BPM or tempo marking (e.g. '♩= 120', 'q=90', 'Tempo: 100 BPM') near the top of page 0.\n\
    If found: seconds_per_measure = (60.0 / BPM) * beats_per_bar (beats_per_bar is usually 4).\n\
    If NOT found: seconds_per_measure = ";

pub const INTRO_MEASURES: &'static str = " / total_measure_count.\n\
    \n\
    STEP 3 — Compute y positions:\n\
    For each measure, compute y_frac = the vertical center of that measure's staff row,\n\
    as a fraction of the full page height (0.0 = very top, 1.0 = very bottom).\n\
    Measures within the same staff row share a y_frac. Rows are stacked vertically down the page.\n\
    DO NOT assign y_frac values uniformly — base them on actual visual row positions in the image.\n\
    \n\
    STEP 4 — Handle repeats:\n\
    If the tab has repeat signs (||: and :||) or a D.C./D.S., include repeated sections with\n\
    the correct time_secs for each pass.\n\
    \n\
    Return ONLY a raw JSON array, one object per measure, no explanation, no markdown:\n\
    [{\"page\":0,\"y_frac\":0.05,\"time_secs\":0.0}, ...]\n\
    \n\
    Rules:\n\
    - page is 0-indexed\n\
    - First entry MUST be {\"page\":0,\"y_frac\":0.0,\"time_secs\":0.0}\n\
    - time_secs must be strictly increasing\n\
    - Last entry time_secs must be close to ";

pub const INTRO_TAIL: &'static str = "\n\
    - y_frac values MUST reflect the actual visual row positions, not be evenly spaced";

/// The opening instructions for a tab of `pages` pages and a recording
/// whose length reads `duration` (seconds, one decimal).
pub open spec fn intro_text(pages: nat, duration: Seq<char>) -> Seq<char> {
    INTRO_HEAD@ + decimal(pages) + INTRO_PAGES@ + duration + INTRO_DURATION@ + duration
        + INTRO_MEASURES@ + duration + INTRO_TAIL@
}

/// The opening instructions of the request (see `intro_text`).
pub fn intro(pages: u64, duration: &str) -> (s: String)
    ensures
        s@ == intro_text(pages as nat, duration@),
{
    let n = decimal_string(pages);
    let s = concat_str(INTRO_HEAD, n.as_str());
    let s = concat_str(s.as_str(), INTRO_PAGES);
    let s = concat_str(s.as_str(), duration);
    let s = concat_str(s.as_str(), INTRO_DURATION);
    let s = concat_str(s.as_str(), duration);
    let s = concat_str(s.as_str(), INTRO_MEASURES);
    let s = concat_str(s.as_str(), duration);
    let s = concat_str(s.as_str(), INTRO_TAIL);
    assert(s@ =~= intro_text(pages as nat, duration@));
    s
}

/// The label that precedes the image of page `i` (zero-based).
pub open spec fn page_label_text(i: nat) -> Seq<char> {
    "Page "@ + decimal(i) + ":"@
}

/// The label that precedes the image of page `i`.
pub fn page_label(i: u64) -> (s: String)
    ensures
        s@ == page_label_text(i as nat),
{
    let n = decimal_string(i);
    let s = concat_str("Page ", n.as_str());
    concat_str(s.as_str(), ":")
}

/// What `base64::engine::general_purpose::STANDARD.encode` gives for
/// `bytes`: their standard, padded Base64 text.
pub uninterp spec fn base64_standard(bytes: Seq<u8>) -> Seq<char>;

/// Standard padded Base64 of `bytes`
/// (`base64::engine::general_purpose::STANDARD.encode`); the encoding is
/// named by `base64_standard`, not spelled out.
#[verifier::external_body]
fn encode_base64(bytes: &[u8]) -> (s: String)
    ensures
        s@ == base64_standard(bytes@),
{
    base64::engine::general_purpose::STANDARD.encode(bytes)
}

/// One block of the request's message content.
pub enum ContentBlock {
    /// A text block.
    Text(String),
    /// A PNG image, Base64-encoded.
    PngBase64(String),
}

/// The block holds the text `t`.
pub open spec fn is_text_block(b: ContentBlock, t: Seq<char>) -> bool {
    match b {
        ContentBlock::Text(s) => s@ == t,
        ContentBlock::PngBase64(_) => false,
    }
}

/// The block holds a PNG image with Base64 text `t`.
pub open spec fn is_image_block(b: ContentBlock, t: Seq<char>) -> bool {
    match b {
        ContentBlock::Text(_) => false,
        ContentBlock::PngBase64(s) => s@ == t,
    }
}

/// The message content asking for a timing map of the tab whose rendered
/// pages are `pages` (PNG bytes), for a recording whose length reads
/// `duration`: the instructions, then for each page its label and its image.
pub fn request_content(duration: &str, pages: &Vec<Vec<u8>>) -> (c: Vec<ContentBlock>)
    ensures
        c.len() == 1 + 2 * pages.len(),
        is_text_block(c@[0], intro_text(pages.len() as nat, duration@)),
        forall|i: int|
            0 <= i < pages.len() ==> is_text_block(#[trigger] c@[1 + 2 * i], page_label_text(i as nat))
                && is_image_block(c@[2 + 2 * i], base64_standard(pages@[i]@)),
{
    let mut c: Vec<ContentBlock> = Vec::new();
    c.push(ContentBlock::Text(intro(pages.len() as u64, duration)));
    let mut i: usize = 0;
    while i < pages.len()
        invariant
            i <= pages.len(),
            c.len() == 1 + 2 * i,
            is_text_block(c@[0], intro_text(pages.len() as nat, duration@)),
            forall|k: int|
                0 <= k < i ==> is_text_block(#[trigger] c@[1 + 2 * k], page_label_text(k as nat))
                    && is_image_block(c@[2 + 2 * k], base64_standard(pages@[k]@)),
        decreases pages.len() - i,
    {
        c.push(ContentBlock::Text(page_label(i as u64)));
        c.push(ContentBlock::PngBase64(encode_base64(pages[i].as_slice())));
        i += 1;
    }
    c
}

/// `s` without the prefix `p`, when it starts with it (`str::strip_prefix`,
/// falling back to `s`).
pub open spec fn strip_prefix_seq(s: Seq<char>, p: Seq<char>) -> Seq<char> {
    if p.is_prefix_of(s) {
        s.skip(p.len() as int)
    } else {
        s
    }
}

/// `s` without the suffix `p`, when it ends with it.
pub open spec fn strip_suffix_seq(s: Seq<char>, p: Seq<char>) -> Seq<char> {
    if p.is_suffix_of(s) {
        s.take(s.len() - p.len())
    } else {
        s
    }
}

/// A reply with the Markdown code fence around it taken off: trimmed, a
/// leading "```json" or "```" and a trailing "```" removed, trimmed again.
pub open spec fn fences_stripped(s: Seq<char>) -> Seq<char> {
    trim_seq(
        strip_suffix_seq(
            strip_prefix_seq(strip_prefix_seq(trim_seq(s), "```json"@), "```"@),
            "```"@,
        ),
    )
}

fn strip_prefix_chars(s: Vec<char>, p: &Vec<char>) -> (r: Vec<char>)
    ensures
        r@ == strip_prefix_seq(s@, p@),
{
    if p.len() > s.len() {
        return s;
    }
    let mut i: usize = 0;
    while i < p.len()
        invariant
            p.len() <= s.len(),
            i <= p.len(),
            forall|k: int| 0 <= k < i ==> s@[k] == p@[k],
        decreases p.len() - i,
    {
        if s[i] != p[i] {
            return s;
        }
        i += 1;
    }
    let mut r: Vec<char> = Vec::new();
    let mut k = p.len();
    while k < s.len()
        invariant
            p.len() <= k <= s.len(),
            r@ == s@.subrange(p.len() as int, k as int),
        decreases s.len() - k,
    {
        r.push(s[k]);
        assert(s@.subrange(p.len() as int, k as int).push(s@[k as int]) =~= s@.subrange(p.len() as int, k + 1));
        k += 1;
    }
    assert(p@.is_prefix_of(s@));
    r
}

fn strip_suffix_chars(s: Vec<char>, p: &Vec<char>) -> (r: Vec<char>)
    ensures
        r@ == strip_suffix_seq(s@, p@),
{
    if p.len() > s.len() {
        return s;
    }
    let off = s.len() - p.len();
    let mut i: usize = 0;
    while i < p.len()
        invariant
            off + p.len() == s.len(),
            i <= p.len(),
            forall|k: int| 0 <= k < i ==> s@[off + k] == p@[k],
        decreases p.len() - i,
    {
        if s[off + i] != p[i] {
            return s;
        }
        i += 1;
    }
    let mut r: Vec<char> = Vec::new();
    let mut k: usize = 0;
    while k < off
        invariant
            off <= s.len(),
            k <= off,
            r@ == s@.take(k as int),
        decreases off - k,
    {
        r.push(s[k]);
        assert(s@.take(k as int).push(s@[k as int]) =~= s@.take(k + 1));
        k += 1;
    }
    assert(p@.is_suffix_of(s@));
    r
}

/// The reply text without the code fence a model may put around it.
pub fn strip_code_fences(s: &str) -> (r: String)
    ensures
        r@ == fences_stripped(s@),
{
    let t = trim(s);
    let v = chars_of(t.as_str());
    let json = chars_of("```json");
    let fence = chars_of("```");
    let v = strip_prefix_chars(v, &json);
    let v = strip_prefix_chars(v, &fence);
    let v = strip_suffix_chars(v, &fence);
    let w = string_from_chars(&v);
    trim(w.as_str())
}

/// `s` with every occurrence of `pat` (not empty) replaced by `rep`, from
/// left to right and without overlaps, as `str::replace` does.
pub open spec fn replace_all(s: Seq<char>, pat: Seq<char>, rep: Seq<char>) -> Seq<char>
    decreases s.len(),
{
    if pat.len() == 0 || s.len() < pat.len() {
        s
    } else if s.take(pat.len() as int) == pat {
        rep + replace_all(s.skip(pat.len() as int), pat, rep)
    } else {
        seq![s[0]] + replace_all(s.skip(1), pat, rep)
    }
}

/// `s` with every occurrence of `pat` replaced by `rep` (see `replace_all`).
pub fn replace(s: &str, pat: &str, rep: &str) -> (r: String)
    requires
        pat@.len() > 0,
    ensures
        r@ == replace_all(s@, pat@, rep@),
{
    let v = chars_of(s);
    let p = chars_of(pat);
    let q = chars_of(rep);
    let mut out: Vec<char> = Vec::new();
    let mut i: usize = 0;
    assert(v@.skip(0) =~= v@);
    while i < v.len()
        invariant
            i <= v.len(),
            p@ == pat@,
            p.len() > 0,
            out@ + replace_all(v@.skip(i as int), p@, q@) == replace_all(v@, p@, q@),
        decreases v.len() - i,
    {
        let ghost tail = v@.skip(i as int);
        let mut matched = p.len() <= v.len() - i;
        let mut k: usize = 0;
        while matched && k < p.len()
            invariant
                k <= p.len(),
                matched ==> i + p.len() <= v.len(),
                matched ==> forall|j: int| 0 <= j < k ==> v@[i + j] == p@[j],
                !matched ==> (tail.len() < p.len() || tail.take(p.len() as int) != p@),
                tail == v@.skip(i as int),
            decreases p.len() - k + if matched { 1int } else { 0int },
        {
            if v[i + k] != p[k] {
                assert(tail.take(p.len() as int)[k as int] != p@[k as int]);
                matched = false;
            } else {
                k += 1;
            }
        }
        if matched {
            assert(tail.take(p.len() as int) =~= p@);
            let ghost before = out@;
            let mut j: usize = 0;
            while j < q.len()
                invariant
                    j <= q.len(),
                    out@ == before + q@.take(j as int),
                decreases q.len() - j,
            {
                out.push(q[j]);
                assert(q@.take(j as int).push(q@[j as int]) =~= q@.take(j + 1));
                j += 1;
            }
            assert(q@.take(q.len() as int) =~= q@);
            assert(tail.skip(p.len() as int) =~= v@.skip(i + p.len()));
            assert(before + (q@ + replace_all(tail.skip(p.len() as int), p@, q@)) =~= out@
                + replace_all(v@.skip(i + p.len()), p@, q@));
            i = i + p.len();
        } else {
            let ghost before = out@;
            out.push(v[i]);
            assert(tail.skip(1) =~= v@.skip(i + 1));
            assert(before + (seq![tail[0]] + replace_all(tail.skip(1), p@, q@)) =~= out@
                + replace_all(v@.skip(i + 1), p@, q@));
            i += 1;
        }
    }
    assert(v@.skip(i as int) =~= Seq::<char>::empty());
    assert(out@ + Seq::<char>::empty() =~= out@);
    string_from_chars(&out)
}

/// A model's reply made ready for JSON parsing: the code fence taken off,
/// and every `">` (a key followed by `>` in place of `:`) mended to `":`.
pub open spec fn cleaned_reply(s: Seq<char>) -> Seq<char> {
    replace_all(fences_stripped(s), "\">"@, "\":"@)
}

/// The reply text made ready for JSON parsing (see `cleaned_reply`).
pub fn clean_reply(s: &str) -> (r: String)
    ensures
        r@ == cleaned_reply(s@),
{
    let stripped = strip_code_fences(s);
    proof {
        reveal_strlit("\">");
    }
    replace(stripped.as_str(), "\">", "\":")
}

} // verus!
