use vstd::prelude::*;
use vstd::string::StringExecFns;
use crate::number::first_pos;
use crate::value_resolver::starts_with;
use crate::text::{trim, trim_start, lower_seq, is_alnum, ends_with, contains_sub, chars_of, trim_vec, lower_vec,
    string_of, slice_vec, seq_eq, eq_lit, ends_with_lit, contains_lit, char_is_alnum, char_is_ws};

verus! {

/// A tone request as the client sends it to the language model.
#[derive(Clone, Debug)]
pub struct ToneRequest {
    pub user_prompt: String,
}

/// The credential held for the session, if unlocked.
#[derive(Clone, Debug, Default)]
pub struct VaultState {
    pub passphrase: Option<String>,
}

/// Where the encrypted credential vault keeps its files.
#[derive(Clone, Debug)]
pub struct VaultPaths {
    pub snapshot_path: String,
    pub salt_path: String,
}

/// How the client authenticates with the model provider.
#[derive(Clone, Copy, Debug, PartialEq, Eq, Structural)]
pub enum GeminiBackend {
    AiStudioApiKey,
    GoogleAiOauth,
    VertexAi,
}

pub open spec fn backend_named(l: Seq<char>) -> Option<GeminiBackend> {
    if l == "vertex"@ || l == "vertexai"@ || l == "vertex_ai"@ {
        Some(GeminiBackend::VertexAi)
    } else if l == "oauth"@ || l == "google-oauth"@ || l == "google_oauth"@ || l == "googleai-oauth"@ {
        Some(GeminiBackend::GoogleAiOauth)
    } else if l == "ai"@ || l == "aistudio"@ || l == "ai-studio"@ || l == "api_key"@ || l == "apikey"@ {
        Some(GeminiBackend::AiStudioApiKey)
    } else {
        None
    }
}

/// An explicit backend setting wins; otherwise (no setting, `auto`, or an
/// unknown name) an API key selects AI Studio, a configured cloud project
/// selects Vertex AI, and OAuth is the last resort.
pub open spec fn backend_choice(setting: Option<Seq<char>>, api_key_present: bool, has_vertex_project: bool) -> GeminiBackend {
    let named = match setting {
        Some(s) => backend_named(lower_seq(trim(s))),
        None => None,
    };
    match named {
        Some(b) => b,
        None => if api_key_present {
            GeminiBackend::AiStudioApiKey
        } else if has_vertex_project {
            GeminiBackend::VertexAi
        } else {
            GeminiBackend::GoogleAiOauth
        },
    }
}

/// Chooses the provider backend (see `backend_choice`).
pub fn decide_backend(setting: Option<&str>, api_key_present: bool, has_vertex_project: bool) -> (r: GeminiBackend)
    ensures
        r == backend_choice(match setting { Some(s) => Some(s@), None => None }, api_key_present, has_vertex_project),
{
    let named = match setting {
        Some(s) => {
            let l = lower_vec(&trim_vec(&chars_of(s)));
            if eq_lit(&l, "vertex") || eq_lit(&l, "vertexai") || eq_lit(&l, "vertex_ai") {
                Some(GeminiBackend::VertexAi)
            } else if eq_lit(&l, "oauth") || eq_lit(&l, "google-oauth") || eq_lit(&l, "google_oauth") || eq_lit(&l, "googleai-oauth") {
                Some(GeminiBackend::GoogleAiOauth)
            } else if eq_lit(&l, "ai") || eq_lit(&l, "aistudio") || eq_lit(&l, "ai-studio") || eq_lit(&l, "api_key") || eq_lit(&l, "apikey") {
                Some(GeminiBackend::AiStudioApiKey)
            } else {
                None
            }
        }
        None => None,
    };
    match named {
        Some(b) => b,
        None => if api_key_present {
            GeminiBackend::AiStudioApiKey
        } else if has_vertex_project {
            GeminiBackend::VertexAi
        } else {
            GeminiBackend::GoogleAiOauth
        },
    }
}

pub open spec fn truncated(s: Seq<char>, max_chars: nat) -> Seq<char> {
    if s.len() <= max_chars { s } else { s.take(max_chars as int) + "\n\u{2026}(truncated)\n"@ }
}

/// Keeps at most `max_chars` characters, marking a cut with a note.
pub fn truncate_chars(s: &str, max_chars: usize) -> (r: String)
    ensures
        r@ == truncated(s@, max_chars as nat),
{
    let v = chars_of(s);
    if v.len() <= max_chars {
        return string_of(&v);
    }
    let mut out = string_of(&slice_vec(&v, 0, max_chars));
    out.append("\n\u{2026}(truncated)\n");
    proof { assert(v@.subrange(0, max_chars as int) =~= s@.take(max_chars as int)); }
    out
}

/// Model names to try on Vertex AI: the name as given, then versioned
/// variants, unless the name already carries a version.
pub open spec fn model_candidates(model: Seq<char>) -> Seq<Seq<char>> {
    let m = trim(model);
    if m.len() == 0 {
        Seq::empty()
    } else if contains_sub(m, "@"@) || ends_with(m, "-001"@) || ends_with(m, "-002"@) || ends_with(m, "-003"@) {
        seq![m]
    } else {
        seq![m, m + "-002"@, m + "-001"@, m + "@002"@, m + "@001"@]
    }
}

fn with_suffix(m: &Vec<char>, suffix: &str) -> (r: String)
    ensures
        r@ == m@ + suffix@,
{
    let mut s = string_of(m);
    s.append(suffix);
    s
}

/// Lists the model names to try (see `model_candidates`).
pub fn vertex_model_candidates(model: &str) -> (r: Vec<String>)
    ensures
        r@.len() == model_candidates(model@).len(),
        forall|i: int| 0 <= i < r@.len() ==> #[trigger] r@[i]@ == model_candidates(model@)[i],
{
    let m = trim_vec(&chars_of(model));
    if m.len() == 0 {
        return Vec::new();
    }
    if contains_lit(&m, "@") || ends_with_lit(&m, "-001") || ends_with_lit(&m, "-002") || ends_with_lit(&m, "-003") {
        return vec![string_of(&m)];
    }
    let r = vec![string_of(&m), with_suffix(&m, "-002"), with_suffix(&m, "-001"), with_suffix(&m, "@002"), with_suffix(&m, "@001")];
    r
}

pub open spec fn provider_char(c: char) -> bool {
    is_alnum(c) || c == '-' || c == '_' || c == '.'
}

/// The provider name reduced to letters, digits, `-`, `_` and `.`, lower-cased;
/// `gemini` when nothing is left.
pub open spec fn provider_name(p: Seq<char>) -> Seq<char> {
    let c = trim(p).filter(|x: char| provider_char(x));
    if c.len() == 0 { "gemini"@ } else { lower_seq(c) }
}

/// Canonical provider name (see `provider_name`).
pub fn normalize_provider(provider: &str) -> (r: String)
    ensures
        r@ == provider_name(provider@),
{
    let t = trim_vec(&chars_of(provider));
    let mut c: Vec<char> = Vec::new();
    let mut i: usize = 0;
    while i < t.len()
        invariant
            i <= t@.len(),
            c@ == t@.take(i as int).filter(|x: char| provider_char(x)),
        decreases t@.len() - i,
    {
        let x = t[i];
        proof {
            assert(t@.take(i as int + 1).drop_last() =~= t@.take(i as int));
            reveal(Seq::filter);
        }
        if char_is_alnum(x) || x == '-' || x == '_' || x == '.' {
            c.push(x);
        }
        i = i + 1;
    }
    proof { assert(t@.take(i as int) =~= t@); }
    if c.len() == 0 {
        return String::from_str("gemini");
    }
    string_of(&lower_vec(&c))
}

/// The vault key under which a provider's API key is stored: the bytes of
/// `api_key::` followed by the canonical provider name.
pub fn provider_key(provider: &str) -> (r: Vec<u8>)
    ensures
        r@ == ("api_key::"@ + provider_name(provider@)).map_values(|c: char| c as u8),
{
    let name = chars_of(normalize_provider(provider).as_str());
    let prefix = chars_of("api_key::");
    let mut all = prefix.clone();
    let mut k: usize = 0;
    let ghost start = all@;
    while k < name.len()
        invariant
            k <= name@.len(),
            all@ == start + name@.take(k as int),
        decreases name@.len() - k,
    {
        all.push(name[k]);
        proof { assert(all@ =~= start + name@.take(k as int + 1)); }
        k = k + 1;
    }
    proof { assert(name@.take(k as int) =~= name@); }
    let mut out: Vec<u8> = Vec::new();
    let mut i: usize = 0;
    while i < all.len()
        invariant
            i <= all@.len(),
            out@ == all@.take(i as int).map_values(|c: char| c as u8),
        decreases all@.len() - i,
    {
        out.push(all[i] as u8);
        proof { assert(out@ =~= all@.take(i as int + 1).map_values(|c: char| c as u8)); }
        i = i + 1;
    }
    proof { assert(all@.take(i as int) =~= all@); }
    out
}

/// Reconnect backoff: waits of 1, 2, 5 and then 10 seconds.
#[derive(Clone, Copy, Debug, Default, PartialEq, Eq, Structural)]
pub struct Backoff {
    pub idx: usize,
}

pub open spec fn delay_at(idx: int) -> u64 {
    if idx == 0 { 1 } else if idx == 1 { 2 } else if idx == 2 { 5 } else { 10 }
}

impl Backoff {
    /// Starts the sequence over.
    pub fn reset(&mut self)
        ensures
            final(self).idx == 0,
    {
        self.idx = 0;
    }

    /// The next wait in seconds; the sequence stays at its last step.
    pub fn next_delay(&mut self) -> (secs: u64)
        ensures
            secs == delay_at(old(self).idx as int),
            final(self).idx == (if old(self).idx < 4 { old(self).idx + 1 } else { 4 }),
    {
        let secs: u64 = if self.idx == 0 { 1 } else if self.idx == 1 { 2 } else if self.idx == 2 { 5 } else { 10 };
        self.idx = if self.idx < 4 { self.idx + 1 } else { 4 };
        secs
    }
}

/// Section name used when listing parameters.
pub open spec fn group_of(index: i32) -> &'static str {
    if 0 <= index <= 2 { "global" }
    else if 3 <= index <= 27 { "pedals_pre" }
    else if 28 <= index <= 82 { "amp_eq" }
    else if 83 <= index <= 100 { "cab" }
    else if 101 <= index <= 111 { "delay" }
    else if 112 <= index <= 118 { "reverb" }
    else if 119 <= index <= 4096 { "midi_or_other" }
    else { "other" }
}

/// The section a parameter index belongs to.
pub fn group_key(index: i32) -> (r: &'static str)
    ensures
        r@ == group_of(index)@,
{
    if 0 <= index && index <= 2 { "global" }
    else if 3 <= index && index <= 27 { "pedals_pre" }
    else if 28 <= index && index <= 82 { "amp_eq" }
    else if 83 <= index && index <= 100 { "cab" }
    else if 101 <= index && index <= 111 { "delay" }
    else if 112 <= index && index <= 118 { "reverb" }
    else if 119 <= index && index <= 4096 { "midi_or_other" }
    else { "other" }
}

/// The argument after the first occurrence of `name`, if any.
pub fn parse_arg_value(args: &Vec<String>, name: &str) -> (r: Option<String>)
    ensures
        (forall|i: int| 0 <= i < args@.len() ==> (#[trigger] args@[i])@ != name@) ==> r is None,
        forall|i: int| 0 <= i < args@.len() && (#[trigger] args@[i])@ == name@
            && (forall|j: int| 0 <= j < i ==> (#[trigger] args@[j])@ != name@)
            ==> (if i + 1 < args@.len() { r matches Some(v) && v@ == args@[i + 1]@ } else { r is None }),
{
    let key = chars_of(name);
    let mut i: usize = 0;
    while i < args.len()
        invariant
            i <= args@.len(),
            key@ == name@,
            forall|j: int| 0 <= j < i ==> (#[trigger] args@[j])@ != name@,
        decreases args@.len() - i,
    {
        if seq_eq(&chars_of(args[i].as_str()), &key) {
            if i + 1 < args.len() {
                return Some(args[i + 1].clone());
            }
            return None;
        }
        i = i + 1;
    }
    None
}

pub open spec fn braced(t: Seq<char>) -> bool {
    t.len() > 0 && t[0] == '{' && t.last() == '}'
}

/// Position of the last `c` in `s`, or -1.
pub open spec fn last_pos(s: Seq<char>, c: char) -> int
    decreases s.len(),
{
    if s.len() == 0 { -1 } else if s.last() == c { s.len() - 1 } else { last_pos(s.drop_last(), c) }
}

/// What a code fence holds: the text after the opening backticks and an
/// optional `json` tag, without the closing backticks, trimmed.
pub open spec fn fence_body(t: Seq<char>) -> Seq<char> {
    let a = trim_start(t.skip(3));
    let b = if starts_with(a, "json"@) { a.skip(4) } else { a };
    let c = trim(b);
    let d = if ends_with(c, "```"@) { c.take(c.len() - 3) } else { c };
    trim(d)
}

/// The JSON object in a model reply: the whole trimmed reply when it is
/// braced, else the braced body of a code fence, else the span from the
/// first `{` to the last `}`.
pub open spec fn json_like(text: Seq<char>) -> Option<Seq<char>> {
    let t = trim(text);
    if braced(t) {
        Some(t)
    } else if starts_with(t, "```"@) && braced(fence_body(t)) {
        Some(fence_body(t))
    } else {
        let s = first_pos(t, '{');
        let e = last_pos(t, '}');
        if s >= 0 && e > s { Some(t.subrange(s, e + 1)) } else { None }
    }
}

fn starts_with_lit(s: &Vec<char>, lit: &str) -> (r: bool)
    ensures
        r == starts_with(s@, lit@),
{
    let p = chars_of(lit);
    if p.len() > s.len() {
        return false;
    }
    let h = slice_vec(s, 0, p.len());
    proof { assert(h@ =~= s@.take(p@.len() as int)); }
    seq_eq(&h, &p)
}

fn is_braced(t: &Vec<char>) -> (r: bool)
    ensures
        r == braced(t@),
{
    t.len() > 0 && t[0] == '{' && t[t.len() - 1] == '}'
}

fn trim_start_vec(s: &Vec<char>) -> (r: Vec<char>)
    ensures
        r@ == trim_start(s@),
{
    let mut lo: usize = 0;
    assert(s@.skip(0) =~= s@);
    while lo < s.len() && char_is_ws(s[lo])
        invariant
            lo <= s@.len(),
            trim_start(s@) == trim_start(s@.skip(lo as int)),
        decreases s@.len() - lo,
    {
        proof { assert(s@.skip(lo as int).skip(1) =~= s@.skip(lo as int + 1)); }
        lo = lo + 1;
    }
    let r = slice_vec(s, lo, s.len());
    proof { assert(r@ =~= s@.skip(lo as int)); }
    r
}

fn fence_body_exec(t: &Vec<char>) -> (r: Vec<char>)
    requires
        t@.len() >= 3,
    ensures
        r@ == fence_body(t@),
{
    let a0 = slice_vec(t, 3, t.len());
    proof { assert(a0@ =~= t@.skip(3)); }
    let a = trim_start_vec(&a0);
    let b = if starts_with_lit(&a, "json") {
        proof { reveal_strlit("json"); }
        let x = slice_vec(&a, 4, a.len());
        proof { assert(x@ =~= a@.skip(4)); }
        x
    } else {
        a
    };
    let c = trim_vec(&b);
    let d = if ends_with_lit(&c, "```") {
        proof { reveal_strlit("```"); }
        let x = slice_vec(&c, 0, c.len() - 3);
        proof { assert(x@ =~= c@.take(c@.len() - 3)); }
        x
    } else {
        c
    };
    trim_vec(&d)
}

/// Cuts the JSON object out of a model reply (see `json_like`).
pub fn extract_json_like(text: &str) -> (r: Option<String>)
    ensures
        r matches Some(v) ==> json_like(text@) == Some(v@),
        r is None ==> json_like(text@) is None,
{
    let t = trim_vec(&chars_of(text));
    if is_braced(&t) {
        return Some(string_of(&t));
    }
    if starts_with_lit(&t, "```") {
        proof { reveal_strlit("```"); }
        let body = fence_body_exec(&t);
        if is_braced(&body) {
            return Some(string_of(&body));
        }
    }
    let n = t.len();
    let mut s: usize = 0;
    while s < n && t[s] != '{'
        invariant
            s <= n == t@.len(),
            forall|k: int| 0 <= k < s ==> t@[k] != '{',
        decreases n - s,
    {
        s = s + 1;
    }
    proof { lemma_first_pos_is(t@, '{', s as int); }
    if s == n {
        return None;
    }
    let mut e: usize = n;
    while e > 0 && t[e - 1] != '}'
        invariant
            e <= n == t@.len(),
            forall|k: int| e <= k < n ==> t@[k] != '}',
        decreases e,
    {
        e = e - 1;
    }
    proof { lemma_last_pos_is(t@, '}', e as int - 1); }
    if e == 0 || e - 1 <= s {
        return None;
    }
    Some(string_of(&slice_vec(&t, s, e)))
}

proof fn lemma_first_pos_is(t: Seq<char>, c: char, s: int)
    requires
        0 <= s <= t.len(),
        forall|k: int| 0 <= k < s ==> t[k] != c,
        s < t.len() ==> t[s] == c,
    ensures
        first_pos(t, c) == (if s < t.len() { s } else { -1 }),
    decreases t.len(),
{
    if t.len() > 0 {
        if s > 0 {
            assert forall|k: int| 0 <= k < s - 1 implies t.skip(1)[k] != c by {
                assert(t.skip(1)[k] == t[k + 1]);
            }
            lemma_first_pos_is(t.skip(1), c, s - 1);
        }
    }
}

proof fn lemma_last_pos_is(t: Seq<char>, c: char, e: int)
    requires
        -1 <= e < t.len(),
        forall|k: int| e < k < t.len() ==> t[k] != c,
        e >= 0 ==> t[e] == c,
    ensures
        last_pos(t, c) == e,
    decreases t.len(),
{
    if t.len() > 0 && e < t.len() - 1 {
        lemma_last_pos_is(t.drop_last(), c, e);
    }
}

/// Parameter names used when listing a write set.
pub open spec fn cli_label(i: i32) -> &'static str {
    if i == 0 { "Input Gain" }
    else if i == 1 { "Output Gain" }
    else if i == 2 { "Gate Amount" }
    else if i == 3 { "Pitch Section Active" }
    else if i == 4 { "WOW Active" }
    else if i == 5 { "WOW Type" }
    else if i == 6 { "WOW Position" }
    else if i == 7 { "WOW Dry/Wet" }
    else if i == 8 { "OCT Active" }
    else if i == 9 { "OCT Oct 1 Level" }
    else if i == 10 { "OCT Oct 2 Level" }
    else if i == 11 { "OCT Direct Level" }
    else if i == 13 { "Overdrive Active" }
    else if i == 14 { "Overdrive Drive" }
    else if i == 15 { "Overdrive Tone" }
    else if i == 16 { "Overdrive Level" }
    else if i == 17 { "DRT Active" }
    else if i == 18 { "DRT Dist" }
    else if i == 19 { "DRT Filter" }
    else if i == 20 { "DRT Vol" }
    else if i == 21 { "PHSR Active" }
    else if i == 22 { "PHSR Rate" }
    else if i == 23 { "CHR Active" }
    else if i == 24 { "CHR Rate" }
    else if i == 25 { "CHR Depth" }
    else if i == 26 { "CHR Feedback" }
    else if i == 27 { "CHR Mix" }
    else if i == 28 { "Amp Section Active" }
    else if i == 29 { "Amp Type" }
    else if i == 30 { "CLN Amp Gain" }
    else if i == 31 { "CLN Amp Bright" }
    else if i == 32 { "CLN Amp Bass" }
    else if i == 33 { "CLN Amp Mid" }
    else if i == 34 { "CLN Amp Treble" }
    else if i == 35 { "CLN Amp Level" }
    else if i == 36 { "RUST Amp Gain" }
    else if i == 37 { "RUST Amp Low" }
    else if i == 38 { "RUST Amp Mid" }
    else if i == 39 { "RUST Amp High" }
    else if i == 40 { "RUST Amp Master" }
    else if i == 41 { "RUST Amp Presence" }
    else if i == 42 { "RUST Amp Depth" }
    else if i == 43 { "RUST Amp Level" }
    else if i == 44 { "HOT Amp Gain" }
    else if i == 45 { "HOT Amp Low" }
    else if i == 46 { "HOT Amp Mid" }
    else if i == 47 { "HOT Amp High" }
    else if i == 48 { "HOT Amp Master" }
    else if i == 49 { "HOT Amp Presence" }
    else if i == 50 { "HOT Amp Depth" }
    else if i == 51 { "HOT Amp Level" }
    else if i == 52 { "EQ Section Active" }
    else if i == 53 { "CLN EQ Active" }
    else if i == 54 { "CLN EQ Band 1" }
    else if i == 55 { "CLN EQ Band 2" }
    else if i == 56 { "CLN EQ Band 3" }
    else if i == 57 { "CLN EQ Band 4" }
    else if i == 58 { "CLN EQ Band 5" }
    else if i == 59 { "CLN EQ Band 6" }
    else if i == 60 { "CLN EQ Band 7" }
    else if i == 61 { "CLN EQ Band 8" }
    else if i == 62 { "CLN EQ Band 9" }
    else if i == 63 { "RUST EQ Active" }
    else if i == 64 { "RUST EQ Band 1" }
    else if i == 65 { "RUST EQ Band 2" }
    else if i == 66 { "RUST EQ Band 3" }
    else if i == 67 { "RUST EQ Band 4" }
    else if i == 68 { "RUST EQ Band 5" }
    else if i == 69 { "RUST EQ Band 6" }
    else if i == 70 { "RUST EQ Band 7" }
    else if i == 71 { "RUST EQ Band 8" }
    else if i == 72 { "RUST EQ Band 9" }
    else if i == 73 { "HOT EQ Active" }
    else if i == 74 { "HOT EQ Band 1" }
    else if i == 75 { "HOT EQ Band 2" }
    else if i == 76 { "HOT EQ Band 3" }
    else if i == 77 { "HOT EQ Band 4" }
    else if i == 78 { "HOT EQ Band 5" }
    else if i == 79 { "HOT EQ Band 6" }
    else if i == 80 { "HOT EQ Band 7" }
    else if i == 81 { "HOT EQ Band 8" }
    else if i == 82 { "HOT EQ Band 9" }
    else if i == 83 { "Cab Section Active" }
    else if i == 84 { "Cab Type" }
    else if i == 85 { "Cab/Amp Linked" }
    else if i == 86 { "Cab 1 Active" }
    else if i == 87 { "Cab 1 Position" }
    else if i == 88 { "Cab 1 Distance" }
    else if i == 89 { "Cab 1 Level" }
    else if i == 90 { "Cab 1 Pan" }
    else if i == 91 { "Cab 1 Phase" }
    else if i == 92 { "Cab 1 Mic IR" }
    else if i == 93 { "Cab 2 Active" }
    else if i == 94 { "Cab 2 Position" }
    else if i == 95 { "Cab 2 Distance" }
    else if i == 96 { "Cab 2 Level" }
    else if i == 97 { "Cab 2 Pan" }
    else if i == 98 { "Cab 2 Phase" }
    else if i == 99 { "Cab 2 Mic IR" }
    else if i == 100 { "FX Section Active" }
    else if i == 101 { "Delay Active" }
    else if i == 105 { "Delay Dry/Wet" }
    else if i == 106 { "Delay Feedback" }
    else if i == 108 { "Delay Tempo" }
    else if i == 112 { "Reverb Active" }
    else if i == 113 { "Reverb Mode" }
    else if i == 114 { "Reverb Dry/Wet" }
    else if i == 115 { "Reverb Time" }
    else if i == 116 { "Reverb Low Cut" }
    else if i == 117 { "Reverb High Cut" }
    else { "Param" }
}

/// The name of a parameter as the command-line client lists it.
pub fn label_for_index(index: i32) -> (r: &'static str)
    ensures
        r@ == cli_label(index)@,
{
    match index {
        0 => "Input Gain",
        1 => "Output Gain",
        2 => "Gate Amount",
        3 => "Pitch Section Active",
        4 => "WOW Active",
        5 => "WOW Type",
        6 => "WOW Position",
        7 => "WOW Dry/Wet",
        8 => "OCT Active",
        9 => "OCT Oct 1 Level",
        10 => "OCT Oct 2 Level",
        11 => "OCT Direct Level",
        13 => "Overdrive Active",
        14 => "Overdrive Drive",
        15 => "Overdrive Tone",
        16 => "Overdrive Level",
        17 => "DRT Active",
        18 => "DRT Dist",
        19 => "DRT Filter",
        20 => "DRT Vol",
        21 => "PHSR Active",
        22 => "PHSR Rate",
        23 => "CHR Active",
        24 => "CHR Rate",
        25 => "CHR Depth",
        26 => "CHR Feedback",
        27 => "CHR Mix",
        28 => "Amp Section Active",
        29 => "Amp Type",
        30 => "CLN Amp Gain",
        31 => "CLN Amp Bright",
        32 => "CLN Amp Bass",
        33 => "CLN Amp Mid",
        34 => "CLN Amp Treble",
        35 => "CLN Amp Level",
        36 => "RUST Amp Gain",
        37 => "RUST Amp Low",
        38 => "RUST Amp Mid",
        39 => "RUST Amp High",
        40 => "RUST Amp Master",
        41 => "RUST Amp Presence",
        42 => "RUST Amp Depth",
        43 => "RUST Amp Level",
        44 => "HOT Amp Gain",
        45 => "HOT Amp Low",
        46 => "HOT Amp Mid",
        47 => "HOT Amp High",
        48 => "HOT Amp Master",
        49 => "HOT Amp Presence",
        50 => "HOT Amp Depth",
        51 => "HOT Amp Level",
        52 => "EQ Section Active",
        53 => "CLN EQ Active",
        54 => "CLN EQ Band 1",
        55 => "CLN EQ Band 2",
        56 => "CLN EQ Band 3",
        57 => "CLN EQ Band 4",
        58 => "CLN EQ Band 5",
        59 => "CLN EQ Band 6",
        60 => "CLN EQ Band 7",
        61 => "CLN EQ Band 8",
        62 => "CLN EQ Band 9",
        63 => "RUST EQ Active",
        64 => "RUST EQ Band 1",
        65 => "RUST EQ Band 2",
        66 => "RUST EQ Band 3",
        67 => "RUST EQ Band 4",
        68 => "RUST EQ Band 5",
        69 => "RUST EQ Band 6",
        70 => "RUST EQ Band 7",
        71 => "RUST EQ Band 8",
        72 => "RUST EQ Band 9",
        73 => "HOT EQ Active",
        74 => "HOT EQ Band 1",
        75 => "HOT EQ Band 2",
        76 => "HOT EQ Band 3",
        77 => "HOT EQ Band 4",
        78 => "HOT EQ Band 5",
        79 => "HOT EQ Band 6",
        80 => "HOT EQ Band 7",
        81 => "HOT EQ Band 8",
        82 => "HOT EQ Band 9",
        83 => "Cab Section Active",
        84 => "Cab Type",
        85 => "Cab/Amp Linked",
        86 => "Cab 1 Active",
        87 => "Cab 1 Position",
        88 => "Cab 1 Distance",
        89 => "Cab 1 Level",
        90 => "Cab 1 Pan",
        91 => "Cab 1 Phase",
        92 => "Cab 1 Mic IR",
        93 => "Cab 2 Active",
        94 => "Cab 2 Position",
        95 => "Cab 2 Distance",
        96 => "Cab 2 Level",
        97 => "Cab 2 Pan",
        98 => "Cab 2 Phase",
        99 => "Cab 2 Mic IR",
        100 => "FX Section Active",
        101 => "Delay Active",
        105 => "Delay Dry/Wet",
        106 => "Delay Feedback",
        108 => "Delay Tempo",
        112 => "Reverb Active",
        113 => "Reverb Mode",
        114 => "Reverb Dry/Wet",
        115 => "Reverb Time",
        116 => "Reverb Low Cut",
        117 => "Reverb High Cut",
        _ => "Param",
    }
}

} // verus!
