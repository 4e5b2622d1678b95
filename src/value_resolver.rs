use vstd::prelude::*;
use vstd::string::StringExecFns;
use crate::protocol::{ParamChange, SCALE};
use crate::text::{trim, lower_seq, contains_sub, ends_with, strip_suffix, replace_char, remove_char,
    normalize_ws_spec, strip_trailing, remove_all, trim_end, trim_vec, lower_vec, eq_lit, contains_lit,
    ends_with_lit, replace_char_vec, remove_char_vec, squeeze_vec, strip_trailing_vec, remove_all_lit,
    slice_vec, chars_of, seq_eq, trim_end_vec, string_of};
use crate::number::{parse_fixed, first_number, parse_fixed_exec, first_number_exec};
use crate::inversion::{CalPoint, invert_piecewise, invert_range, clamp_int, invert_piecewise_exec,
    invert_range_exec, points_bounded, distinct_physical, lemma_piecewise_hits_sample};
use crate::cleaner::clamp_unit;

verus! {

/// A value as proposed by the language model: a number (in millionths), a
/// string, or anything else (which cannot be resolved).
#[derive(Clone, Debug)]
pub enum AiValue {
    Number(i64),
    Text(String),
    Other,
}

/// One loosely typed parameter change as proposed by the language model.
#[derive(Clone, Debug)]
pub struct AiParamChange {
    pub index: i32,
    pub value: AiValue,
}

/// One setting of an enumerated parameter: its normalized midpoint and label.
#[derive(Clone, Debug)]
pub struct ParamEnumOption {
    pub value: i64,
    pub label: String,
}

/// Formatted display of a parameter at normalized 0, 0.5 and 1.
#[derive(Clone, Debug)]
pub struct ParamFormatTriplet {
    pub min: String,
    pub mid: String,
    pub max: String,
}

/// One sampled pair of a normalized value and its formatted display.
#[derive(Clone, Debug)]
pub struct ParamFormatSample {
    pub norm: i64,
    pub formatted: String,
}

/// A structured reply of the language model: its reasoning and the changes
/// it proposes.
#[derive(Clone, Debug)]
pub struct AiToneResponse {
    pub reasoning: String,
    pub params: Vec<AiParamChange>,
}

/// Enumeration options of one parameter.
#[derive(Clone, Debug)]
pub struct EnumTable {
    pub index: i32,
    pub options: Vec<ParamEnumOption>,
}

/// Format triplet of one parameter.
#[derive(Clone, Debug)]
pub struct TripletEntry {
    pub index: i32,
    pub triplet: ParamFormatTriplet,
}

/// Format samples of one parameter.
#[derive(Clone, Debug)]
pub struct SampleTable {
    pub index: i32,
    pub samples: Vec<ParamFormatSample>,
}

/// Probed metadata the resolver works from. For each kind, a later entry for
/// an index overrides an earlier one.
#[derive(Clone, Debug)]
pub struct ParamMeta {
    pub enums: Vec<EnumTable>,
    pub triplets: Vec<TripletEntry>,
    pub samples: Vec<SampleTable>,
}

/// Why a proposed value could not be resolved.
#[derive(Clone, Copy, Debug, PartialEq, Eq, Structural)]
pub enum ResolveErrorKind {
    /// A number outside `0..=1` with no calibration to map it.
    NotNormalized,
    /// Neither a number nor a string.
    UnsupportedType,
    /// An empty string.
    EmptyString,
    /// A time with no calibration to map it.
    TimeUnmapped,
    /// A frequency with no calibration to map it.
    HzUnmapped,
    /// A tempo with no calibration to map it.
    BpmUnmapped,
    /// A string that matches no known form.
    Unresolved,
}

/// A value that could not be resolved, and the parameter it was for.
#[derive(Clone, Copy, Debug, PartialEq, Eq, Structural)]
pub struct ResolveError {
    pub kind: ResolveErrorKind,
    pub index: i32,
}

pub const AMP_TYPE_INDEX: i32 = 29;
pub const CAB_TYPE_INDEX: i32 = 84;
pub const PAN_INDEX_1: i32 = 90;
pub const PAN_INDEX_2: i32 = 97;

pub open spec fn is_eq_band(index: i32) -> bool {
    54 <= index <= 82
}

// ---- table lookups: the last entry for an index wins ----

pub open spec fn enum_pos(s: Seq<EnumTable>, idx: i32) -> int
    decreases s.len(),
{
    if s.len() == 0 { -1 } else if s.last().index == idx { s.len() - 1 } else { enum_pos(s.drop_last(), idx) }
}

pub open spec fn triplet_pos(s: Seq<TripletEntry>, idx: i32) -> int
    decreases s.len(),
{
    if s.len() == 0 { -1 } else if s.last().index == idx { s.len() - 1 } else { triplet_pos(s.drop_last(), idx) }
}

pub open spec fn sample_pos(s: Seq<SampleTable>, idx: i32) -> int
    decreases s.len(),
{
    if s.len() == 0 { -1 } else if s.last().index == idx { s.len() - 1 } else { sample_pos(s.drop_last(), idx) }
}

// ---- reading strings ----

/// Boolean-ish words: on/true/yes/enabled and off/false/no/disabled.
pub open spec fn bool_like(s: Seq<char>) -> Option<int> {
    let t = lower_seq(trim(s));
    if t == "on"@ || t == "true"@ || t == "yes"@ || t == "enabled"@ {
        Some(SCALE as int)
    } else if t == "off"@ || t == "false"@ || t == "no"@ || t == "disabled"@ {
        Some(0)
    } else {
        None
    }
}

/// Amp channel names for the amp selector.
pub open spec fn amp_type(s: Seq<char>) -> Option<int> {
    let t = lower_seq(normalize_ws_spec(s));
    if t == "clean"@ || t == "the clean"@ {
        Some(0)
    } else if t == "crunch"@ || t == "the crunch"@ || t == "rust"@ {
        Some(SCALE / 2)
    } else if t == "lead"@ || t == "the lead"@ || t == "hot"@ {
        Some(SCALE as int)
    } else {
        None
    }
}

pub open spec fn same_ignoring_case(a: Seq<char>, b: Seq<char>) -> bool {
    lower_seq(trim(a)) == lower_seq(trim(b))
}

/// Position of the first option whose label satisfies `same_ignoring_case` with `s`.
pub open spec fn option_pos(o: Seq<ParamEnumOption>, s: Seq<char>) -> int
    decreases o.len(),
{
    if o.len() == 0 {
        -1
    } else {
        let r = option_pos(o.drop_last(), s);
        if r >= 0 { r } else if same_ignoring_case(o.last().label@, s) { o.len() - 1 } else { -1 }
    }
}

/// Position of the first option whose label equals `lab` ignoring ASCII case.
pub open spec fn option_pos_exact(o: Seq<ParamEnumOption>, lab: Seq<char>) -> int
    decreases o.len(),
{
    if o.len() == 0 {
        -1
    } else {
        let r = option_pos_exact(o.drop_last(), lab);
        if r >= 0 { r } else if lower_seq(o.last().label@) == lower_seq(lab) { o.len() - 1 } else { -1 }
    }
}

/// Cab type shorthands ("cab3", "lead cab", ...) to the label they stand for.
pub open spec fn cab_alias(l: Seq<char>) -> Option<Seq<char>> {
    if l == "cab1"@ || l == "cleancab"@ {
        Some("Cab 1"@)
    } else if l == "cab2"@ || l == "crunchcab"@ {
        Some("Cab 2"@)
    } else if l == "cab3"@ || l == "leadcab"@ {
        Some("Cab 3"@)
    } else {
        None
    }
}

/// Value of the enumeration option that `s` names for `index`.
pub open spec fn enum_value(meta: ParamMeta, index: i32, s: Seq<char>) -> Option<int> {
    let p = enum_pos(meta.enums@, index);
    if p < 0 {
        None
    } else {
        let o = meta.enums@[p].options@;
        let n = normalize_ws_spec(s);
        let k = option_pos(o, n);
        if k >= 0 {
            Some(o[k].value as int)
        } else if index == CAB_TYPE_INDEX {
            match cab_alias(remove_char(lower_seq(n), ' ')) {
                Some(lab) => {
                    let k2 = option_pos_exact(o, lab);
                    if k2 >= 0 { Some(o[k2].value as int) } else { None }
                }
                None => None,
            }
        } else {
            None
        }
    }
}

/// `N%` as a fraction of one, clamped.
pub open spec fn percent(t: Seq<char>) -> Option<int> {
    match parse_fixed(trim(strip_trailing(trim(t), '%'))) {
        Some(v) => Some(if v <= 0 { 0 } else { clamp_int(v / 100) }),
        None => None,
    }
}

pub open spec fn lower_dots(s: Seq<char>) -> Seq<char> {
    replace_char(lower_seq(trim(s)), ',', '.')
}

/// A decibel amount written as `-3.5 dB`, `+3,2db`, `3db`.
pub open spec fn db_value(s: Seq<char>) -> Option<int> {
    parse_fixed(trim(remove_all(lower_dots(s), "db"@)))
}

/// The decibel amount shown by a formatted display that mentions dB.
pub open spec fn db_from_formatted(f: Seq<char>) -> Option<int> {
    if contains_sub(lower_dots(f), "db"@) { first_number(lower_dots(f)) } else { None }
}

/// The milliseconds shown by a formatted display in ms or s.
pub open spec fn ms_from_formatted(f: Seq<char>) -> Option<int> {
    let t = lower_dots(f);
    if contains_sub(t, "ms"@) {
        first_number(t)
    } else if ends_with(t, "s"@) {
        match first_number(t) { Some(v) => Some(v * 1000), None => None }
    } else {
        None
    }
}

/// A time written as `250ms` or `1.5 s`, in milli-units.
pub open spec fn ms_value(s: Seq<char>) -> Option<int> {
    let t = remove_char(lower_seq(trim(s)), ' ');
    if ends_with(t, "ms"@) {
        parse_fixed(strip_suffix(t, "ms"@))
    } else if ends_with(t, "s"@) {
        match parse_fixed(strip_suffix(t, "s"@)) { Some(v) => Some(v * 1000), None => None }
    } else {
        None
    }
}

/// A frequency written as `150 Hz` or `6,5 kHz`, in hertz.
pub open spec fn hz_value(s: Seq<char>) -> Option<int> {
    let t = remove_char(lower_dots(s), ' ');
    if ends_with(t, "khz"@) {
        match parse_fixed(strip_suffix(t, "khz"@)) { Some(v) => Some(v * 1000), None => None }
    } else if ends_with(t, "hz"@) {
        parse_fixed(strip_suffix(t, "hz"@))
    } else {
        None
    }
}

/// A tempo written with `bpm`.
pub open spec fn bpm_value(s: Seq<char>) -> Option<int> {
    let t = lower_dots(s);
    if contains_sub(t, "bpm"@) { first_number(t) } else { None }
}

// ---- calibration ----

/// Calibration points from the samples whose display `parse` reads; the
/// others are left out.
pub open spec fn filtered_points(s: Seq<ParamFormatSample>, ms: bool) -> Seq<CalPoint>
    decreases s.len(),
{
    if s.len() == 0 {
        Seq::empty()
    } else {
        let rest = filtered_points(s.drop_last(), ms);
        let f = s.last().formatted@;
        let v = if ms { ms_from_formatted(f) } else { db_from_formatted(f) };
        match v {
            Some(x) => rest.push(CalPoint { physical: x as i64, norm: s.last().norm }),
            None => rest,
        }
    }
}

pub open spec fn sample_mentions_db(s: ParamFormatSample) -> bool {
    contains_sub(lower_seq(s.formatted@), "db"@)
}

pub open spec fn sample_mentions_time(s: ParamFormatSample) -> bool {
    contains_sub(lower_seq(s.formatted@), "ms"@) || ends_with(trim_end(lower_seq(s.formatted@)), "s"@)
}

/// Reads a sample display as dB, as a time, or as a plain number.
pub open spec fn read_sample(f: Seq<char>, has_db: bool, has_ms: bool) -> Option<int> {
    if has_db { db_from_formatted(f) } else if has_ms { ms_from_formatted(f) } else { first_number(f) }
}

/// Calibration points from every sample, or `None` if one cannot be read.
pub open spec fn all_points(s: Seq<ParamFormatSample>, has_db: bool, has_ms: bool) -> Option<Seq<CalPoint>>
    decreases s.len(),
{
    if s.len() == 0 {
        Some(Seq::empty())
    } else {
        match all_points(s.drop_last(), has_db, has_ms) {
            Some(rest) => match read_sample(s.last().formatted@, has_db, has_ms) {
                Some(x) => Some(rest.push(CalPoint { physical: x as i64, norm: s.last().norm })),
                None => None,
            },
            None => None,
        }
    }
}

/// Inverts the sample table of `index` at physical value `x`; the unit is
/// chosen from what the displays mention.
pub open spec fn invert_samples(meta: ParamMeta, index: i32, x: int) -> Option<int> {
    let p = sample_pos(meta.samples@, index);
    if p < 0 {
        None
    } else {
        let s = meta.samples@[p].samples@;
        if s.len() == 0 {
            None
        } else {
            let has_db = exists|k: int| 0 <= k < s.len() && sample_mentions_db(#[trigger] s[k]);
            let has_ms = exists|k: int| 0 <= k < s.len() && sample_mentions_time(#[trigger] s[k]);
            match all_points(s, has_db, has_ms) {
                Some(pts) => invert_piecewise(pts, x),
                None => None,
            }
        }
    }
}

/// Inverts the sample table of `index` at `x`, using only the samples whose
/// display reads as dB (or as a time, when `ms`).
pub open spec fn invert_samples_filtered(meta: ParamMeta, index: i32, x: int, ms: bool) -> Option<int> {
    let p = sample_pos(meta.samples@, index);
    if p < 0 {
        None
    } else {
        invert_piecewise(filtered_points(meta.samples@[p].samples@, ms), x)
    }
}

/// Inverts the format triplet of `index` at physical value `x`.
pub open spec fn invert_triplet(meta: ParamMeta, index: i32, x: int) -> Option<int> {
    let p = triplet_pos(meta.triplets@, index);
    if p < 0 {
        None
    } else {
        let t = meta.triplets@[p].triplet;
        match (first_number(t.min@), first_number(t.max@)) {
            (Some(lo), Some(hi)) => invert_range(lo, hi, x),
            _ => None,
        }
    }
}

pub open spec fn or_else(a: Option<int>, b: Option<int>) -> Option<int> {
    if a is Some { a } else { b }
}

/// A dB amount for `index`: sample inversion, then the graphic-EQ fallback of
/// -12..+12 dB, then triplet inversion.
pub open spec fn resolve_db(meta: ParamMeta, index: i32, db: int) -> Option<int> {
    or_else(
        invert_samples_filtered(meta, index, db, false),
        or_else(
            if is_eq_band(index) { invert_range(-12 * SCALE, 12 * SCALE, db) } else { None },
            invert_triplet(meta, index, db),
        ),
    )
}

pub open spec fn numeric_of(v: AiValue) -> Option<int> {
    match v {
        AiValue::Number(n) => Some(n as int),
        AiValue::Text(s) => parse_fixed(trim(s@)),
        AiValue::Other => None,
    }
}

pub open spec fn is_pan(index: i32) -> bool {
    index == PAN_INDEX_1 || index == PAN_INDEX_2
}

/// A number for `index`: accepted in `0..=1`; `-1..=1` mapped onto `0..=1`
/// for pan controls; else inverted through calibration data, or refused.
pub open spec fn resolve_number(meta: ParamMeta, index: i32, v: int) -> Result<int, ResolveErrorKind> {
    if 0 <= v <= SCALE {
        Ok(v)
    } else if is_pan(index) && -SCALE <= v <= SCALE {
        Ok((v + SCALE) / 2)
    } else {
        match or_else(invert_samples(meta, index, v), invert_triplet(meta, index, v)) {
            Some(r) => Ok(r),
            None => Err(ResolveErrorKind::NotNormalized),
        }
    }
}

pub open spec fn physical_or(meta: ParamMeta, index: i32, x: int, e: ResolveErrorKind) -> Result<int, ResolveErrorKind> {
    match or_else(invert_samples(meta, index, x), invert_triplet(meta, index, x)) {
        Some(r) => Ok(r),
        None => Err(e),
    }
}

pub open spec fn time_or(meta: ParamMeta, index: i32, x: int) -> Result<int, ResolveErrorKind> {
    match or_else(invert_samples_filtered(meta, index, x, true), invert_triplet(meta, index, x)) {
        Some(r) => Ok(r),
        None => Err(ResolveErrorKind::TimeUnmapped),
    }
}

/// A string for `index`, tried in order: boolean-ish, amp channel, enum
/// label, percent, "flat" on an EQ band, dB, time, frequency, tempo.
pub open spec fn resolve_text(meta: ParamMeta, index: i32, s: Seq<char>) -> Result<int, ResolveErrorKind> {
    let t = trim(s);
    let l = lower_seq(t);
    if t.len() == 0 {
        Err(ResolveErrorKind::EmptyString)
    } else if bool_like(t) is Some {
        Ok(bool_like(t)->0)
    } else if index == AMP_TYPE_INDEX && amp_type(t) is Some {
        Ok(amp_type(t)->0)
    } else if enum_value(meta, index, t) is Some {
        Ok(clamp_int(enum_value(meta, index, t)->0))
    } else if contains_sub(t, "%"@) && percent(t) is Some {
        Ok(percent(t)->0)
    } else if l == "flat"@ && is_eq_band(index) {
        Ok(SCALE / 2)
    } else if contains_sub(l, "db"@) && db_value(t) is Some && resolve_db(meta, index, db_value(t)->0) is Some {
        Ok(resolve_db(meta, index, db_value(t)->0)->0)
    } else if ms_value(t) is Some {
        time_or(meta, index, ms_value(t)->0)
    } else if hz_value(t) is Some {
        physical_or(meta, index, hz_value(t)->0, ResolveErrorKind::HzUnmapped)
    } else if bpm_value(t) is Some {
        physical_or(meta, index, bpm_value(t)->0, ResolveErrorKind::BpmUnmapped)
    } else {
        Err(ResolveErrorKind::Unresolved)
    }
}

/// What one proposed value resolves to for `index`.
pub open spec fn resolve_value(meta: ParamMeta, index: i32, v: AiValue) -> Result<int, ResolveErrorKind> {
    match numeric_of(v) {
        Some(n) => resolve_number(meta, index, n),
        None => match v {
            AiValue::Text(s) => resolve_text(meta, index, s@),
            _ => Err(ResolveErrorKind::UnsupportedType),
        },
    }
}

/// `r` holds the same value as `s`.
pub open spec fn same(r: Option<i64>, s: Option<int>) -> bool {
    match r {
        Some(v) => s == Some(v as int),
        None => s is None,
    }
}

fn bool_like_exec(s: &Vec<char>) -> (r: Option<i64>)
    ensures
        same(r, bool_like(s@)),
{
    let t = lower_vec(&trim_vec(s));
    if eq_lit(&t, "on") || eq_lit(&t, "true") || eq_lit(&t, "yes") || eq_lit(&t, "enabled") {
        Some(SCALE)
    } else if eq_lit(&t, "off") || eq_lit(&t, "false") || eq_lit(&t, "no") || eq_lit(&t, "disabled") {
        Some(0)
    } else {
        None
    }
}

fn amp_type_exec(s: &Vec<char>) -> (r: Option<i64>)
    ensures
        same(r, amp_type(s@)),
{
    let t = lower_vec(&squeeze_vec(&trim_vec(s)));
    if eq_lit(&t, "clean") || eq_lit(&t, "the clean") {
        Some(0)
    } else if eq_lit(&t, "crunch") || eq_lit(&t, "the crunch") || eq_lit(&t, "rust") {
        Some(SCALE / 2)
    } else if eq_lit(&t, "lead") || eq_lit(&t, "the lead") || eq_lit(&t, "hot") {
        Some(SCALE)
    } else {
        None
    }
}

fn percent_exec(t: &Vec<char>) -> (r: Option<i64>)
    ensures
        same(r, percent(t@)),
{
    let u = trim_vec(&strip_trailing_vec(&trim_vec(t), '%'));
    match parse_fixed_exec(&u) {
        Some(v) => {
            if v <= 0 {
                Some(0)
            } else {
                let q = v / 100;
                Some(if q > SCALE { SCALE } else { q })
            }
        }
        None => None,
    }
}

fn lower_dots_exec(s: &Vec<char>) -> (r: Vec<char>)
    ensures
        r@ == lower_dots(s@),
{
    replace_char_vec(&lower_vec(&trim_vec(s)), ',', '.')
}

fn db_value_exec(s: &Vec<char>) -> (r: Option<i64>)
    ensures
        same(r, db_value(s@)),
        r matches Some(v) ==> -2_000_000_000_000_000 < v < 2_000_000_000_000_000,
{
    let t = trim_vec(&remove_all_lit(&lower_dots_exec(s), "db"));
    parse_fixed_exec(&t)
}

fn db_from_formatted_exec(f: &Vec<char>) -> (r: Option<i64>)
    ensures
        same(r, db_from_formatted(f@)),
        r matches Some(v) ==> -2_000_000_000_000_000 < v < 2_000_000_000_000_000,
{
    let t = lower_dots_exec(f);
    if contains_lit(&t, "db") { first_number_exec(&t) } else { None }
}

fn ms_from_formatted_exec(f: &Vec<char>) -> (r: Option<i64>)
    ensures
        same(r, ms_from_formatted(f@)),
        r matches Some(v) ==> -2_000_000_000_000_000_000 < v < 2_000_000_000_000_000_000,
{
    let t = lower_dots_exec(f);
    if contains_lit(&t, "ms") {
        first_number_exec(&t)
    } else if ends_with_lit(&t, "s") {
        match first_number_exec(&t) { Some(v) => Some(v * 1000), None => None }
    } else {
        None
    }
}

fn ms_value_exec(s: &Vec<char>) -> (r: Option<i64>)
    ensures
        same(r, ms_value(s@)),
        r matches Some(v) ==> -2_000_000_000_000_000_000 < v < 2_000_000_000_000_000_000,
{
    let t = remove_char_vec(&lower_vec(&trim_vec(s)), ' ');
    if ends_with_lit(&t, "ms") {
        proof { reveal_strlit("ms"); }
        let u = slice_vec(&t, 0, t.len() - 2);
        proof { assert(u@ =~= strip_suffix(t@, "ms"@)); }
        parse_fixed_exec(&u)
    } else if ends_with_lit(&t, "s") {
        proof { reveal_strlit("s"); }
        let u = slice_vec(&t, 0, t.len() - 1);
        proof { assert(u@ =~= strip_suffix(t@, "s"@)); }
        match parse_fixed_exec(&u) { Some(v) => Some(v * 1000), None => None }
    } else {
        None
    }
}

fn hz_value_exec(s: &Vec<char>) -> (r: Option<i64>)
    ensures
        same(r, hz_value(s@)),
        r matches Some(v) ==> -2_000_000_000_000_000_000 < v < 2_000_000_000_000_000_000,
{
    let t = remove_char_vec(&lower_dots_exec(s), ' ');
    if ends_with_lit(&t, "khz") {
        proof { reveal_strlit("khz"); }
        let u = slice_vec(&t, 0, t.len() - 3);
        proof { assert(u@ =~= strip_suffix(t@, "khz"@)); }
        match parse_fixed_exec(&u) { Some(v) => Some(v * 1000), None => None }
    } else if ends_with_lit(&t, "hz") {
        proof { reveal_strlit("hz"); }
        let u = slice_vec(&t, 0, t.len() - 2);
        proof { assert(u@ =~= strip_suffix(t@, "hz"@)); }
        parse_fixed_exec(&u)
    } else {
        None
    }
}

fn bpm_value_exec(s: &Vec<char>) -> (r: Option<i64>)
    ensures
        same(r, bpm_value(s@)),
        r matches Some(v) ==> -2_000_000_000_000_000 < v < 2_000_000_000_000_000,
{
    let t = lower_dots_exec(s);
    if contains_lit(&t, "bpm") { first_number_exec(&t) } else { None }
}

fn enum_pos_exec(s: &Vec<EnumTable>, idx: i32) -> (r: Option<usize>)
    ensures
        r matches Some(p) ==> enum_pos(s@, idx) == p as int && p < s@.len(),
        r is None ==> enum_pos(s@, idx) == -1,
{
    let mut k: usize = s.len();
    assert(s@.take(k as int) =~= s@);
    while k > 0
        invariant
            k <= s@.len(),
            enum_pos(s@, idx) == enum_pos(s@.take(k as int), idx),
        decreases k,
    {
        proof { assert(s@.take(k as int).drop_last() =~= s@.take(k as int - 1)); }
        if s[k - 1].index == idx {
            return Some(k - 1);
        }
        k = k - 1;
    }
    None
}

fn triplet_pos_exec(s: &Vec<TripletEntry>, idx: i32) -> (r: Option<usize>)
    ensures
        r matches Some(p) ==> triplet_pos(s@, idx) == p as int && p < s@.len(),
        r is None ==> triplet_pos(s@, idx) == -1,
{
    let mut k: usize = s.len();
    assert(s@.take(k as int) =~= s@);
    while k > 0
        invariant
            k <= s@.len(),
            triplet_pos(s@, idx) == triplet_pos(s@.take(k as int), idx),
        decreases k,
    {
        proof { assert(s@.take(k as int).drop_last() =~= s@.take(k as int - 1)); }
        if s[k - 1].index == idx {
            return Some(k - 1);
        }
        k = k - 1;
    }
    None
}

fn sample_pos_exec(s: &Vec<SampleTable>, idx: i32) -> (r: Option<usize>)
    ensures
        r matches Some(p) ==> sample_pos(s@, idx) == p as int && p < s@.len(),
        r is None ==> sample_pos(s@, idx) == -1,
{
    let mut k: usize = s.len();
    assert(s@.take(k as int) =~= s@);
    while k > 0
        invariant
            k <= s@.len(),
            sample_pos(s@, idx) == sample_pos(s@.take(k as int), idx),
        decreases k,
    {
        proof { assert(s@.take(k as int).drop_last() =~= s@.take(k as int - 1)); }
        if s[k - 1].index == idx {
            return Some(k - 1);
        }
        k = k - 1;
    }
    None
}

fn option_pos_exec(o: &Vec<ParamEnumOption>, s: &Vec<char>) -> (r: Option<usize>)
    ensures
        r matches Some(k) ==> option_pos(o@, s@) == k as int && k < o@.len(),
        r is None ==> option_pos(o@, s@) == -1,
{
    let key = lower_vec(&trim_vec(s));
    let mut k: usize = 0;
    assert(o@.take(0) =~= Seq::<ParamEnumOption>::empty());
    while k < o.len()
        invariant
            k <= o@.len(),
            key@ == lower_seq(trim(s@)),
            option_pos(o@.take(k as int), s@) == -1,
        decreases o@.len() - k,
    {
        proof { assert(o@.take(k as int + 1).drop_last() =~= o@.take(k as int)); }
        let lab = lower_vec(&trim_vec(&chars_of(o[k].label.as_str())));
        if seq_eq(&lab, &key) {
            proof { lemma_option_pos_stable(o@, s@, k as int + 1); }
            return Some(k);
        }
        k = k + 1;
    }
    proof { assert(o@.take(k as int) =~= o@); }
    None
}

proof fn lemma_option_pos_stable(o: Seq<ParamEnumOption>, s: Seq<char>, m: int)
    requires
        0 <= m <= o.len(),
        option_pos(o.take(m), s) >= 0,
    ensures
        option_pos(o, s) == option_pos(o.take(m), s),
    decreases o.len() - m,
{
    if m < o.len() {
        assert(o.take(m + 1).drop_last() =~= o.take(m));
        lemma_option_pos_stable(o, s, m + 1);
    } else {
        assert(o.take(m) =~= o);
    }
}

proof fn lemma_option_pos_exact_stable(o: Seq<ParamEnumOption>, s: Seq<char>, m: int)
    requires
        0 <= m <= o.len(),
        option_pos_exact(o.take(m), s) >= 0,
    ensures
        option_pos_exact(o, s) == option_pos_exact(o.take(m), s),
    decreases o.len() - m,
{
    if m < o.len() {
        assert(o.take(m + 1).drop_last() =~= o.take(m));
        lemma_option_pos_exact_stable(o, s, m + 1);
    } else {
        assert(o.take(m) =~= o);
    }
}

fn option_pos_exact_exec(o: &Vec<ParamEnumOption>, lab: &str) -> (r: Option<usize>)
    ensures
        r matches Some(k) ==> option_pos_exact(o@, lab@) == k as int && k < o@.len(),
        r is None ==> option_pos_exact(o@, lab@) == -1,
{
    let key = lower_vec(&chars_of(lab));
    let mut k: usize = 0;
    assert(o@.take(0) =~= Seq::<ParamEnumOption>::empty());
    while k < o.len()
        invariant
            k <= o@.len(),
            key@ == lower_seq(lab@),
            option_pos_exact(o@.take(k as int), lab@) == -1,
        decreases o@.len() - k,
    {
        proof { assert(o@.take(k as int + 1).drop_last() =~= o@.take(k as int)); }
        let l = lower_vec(&chars_of(o[k].label.as_str()));
        if seq_eq(&l, &key) {
            proof { lemma_option_pos_exact_stable(o@, lab@, k as int + 1); }
            return Some(k);
        }
        k = k + 1;
    }
    proof { assert(o@.take(k as int) =~= o@); }
    None
}

fn enum_value_exec(meta: &ParamMeta, index: i32, t: &Vec<char>) -> (r: Option<i64>)
    ensures
        same(r, enum_value(*meta, index, t@)),
{
    let p = match enum_pos_exec(&meta.enums, index) {
        Some(p) => p,
        None => { return None; }
    };
    let o = &meta.enums[p].options;
    let n = squeeze_vec(&trim_vec(t));
    match option_pos_exec(o, &n) {
        Some(k) => { return Some(o[k].value); }
        None => {}
    }
    if index != CAB_TYPE_INDEX {
        return None;
    }
    let l = remove_char_vec(&lower_vec(&n), ' ');
    let lab: &str = if eq_lit(&l, "cab1") || eq_lit(&l, "cleancab") {
        "Cab 1"
    } else if eq_lit(&l, "cab2") || eq_lit(&l, "crunchcab") {
        "Cab 2"
    } else if eq_lit(&l, "cab3") || eq_lit(&l, "leadcab") {
        "Cab 3"
    } else {
        return None;
    };
    match option_pos_exact_exec(o, lab) {
        Some(k) => Some(o[k].value),
        None => None,
    }
}

fn read_sample_exec(f: &Vec<char>, has_db: bool, has_ms: bool) -> (r: Option<i64>)
    ensures
        same(r, read_sample(f@, has_db, has_ms)),
        r matches Some(v) ==> -2_000_000_000_000_000_000 < v < 2_000_000_000_000_000_000,
{
    if has_db { db_from_formatted_exec(f) } else if has_ms { ms_from_formatted_exec(f) } else { first_number_exec(f) }
}

fn all_points_exec(s: &Vec<ParamFormatSample>, has_db: bool, has_ms: bool) -> (r: Option<Vec<CalPoint>>)
    ensures
        r matches Some(v) ==> all_points(s@, has_db, has_ms) == Some(v@) && points_bounded(v@),
        r is None ==> all_points(s@, has_db, has_ms) is None,
{
    let mut pts: Vec<CalPoint> = Vec::new();
    let mut k: usize = 0;
    assert(s@.take(0) =~= Seq::<ParamFormatSample>::empty());
    while k < s.len()
        invariant
            k <= s@.len(),
            all_points(s@.take(k as int), has_db, has_ms) == Some(pts@),
            points_bounded(pts@),
        decreases s@.len() - k,
    {
        proof { assert(s@.take(k as int + 1).drop_last() =~= s@.take(k as int)); }
        let f = chars_of(s[k].formatted.as_str());
        match read_sample_exec(&f, has_db, has_ms) {
            Some(x) => {
                pts.push(CalPoint { physical: x, norm: s[k].norm });
            }
            None => {
                proof { lemma_all_points_none(s@, has_db, has_ms, k as int + 1); }
                return None;
            }
        }
        k = k + 1;
    }
    proof { assert(s@.take(k as int) =~= s@); }
    Some(pts)
}

proof fn lemma_all_points_none(s: Seq<ParamFormatSample>, has_db: bool, has_ms: bool, m: int)
    requires
        0 <= m <= s.len(),
        all_points(s.take(m), has_db, has_ms) is None,
    ensures
        all_points(s, has_db, has_ms) is None,
    decreases s.len() - m,
{
    if m < s.len() {
        assert(s.take(m + 1).drop_last() =~= s.take(m));
        lemma_all_points_none(s, has_db, has_ms, m + 1);
    } else {
        assert(s.take(m) =~= s);
    }
}

fn filtered_points_exec(s: &Vec<ParamFormatSample>, ms: bool) -> (r: Vec<CalPoint>)
    ensures
        r@ == filtered_points(s@, ms),
        points_bounded(r@),
{
    let mut pts: Vec<CalPoint> = Vec::new();
    let mut k: usize = 0;
    assert(s@.take(0) =~= Seq::<ParamFormatSample>::empty());
    while k < s.len()
        invariant
            k <= s@.len(),
            filtered_points(s@.take(k as int), ms) == pts@,
            points_bounded(pts@),
        decreases s@.len() - k,
    {
        proof { assert(s@.take(k as int + 1).drop_last() =~= s@.take(k as int)); }
        let f = chars_of(s[k].formatted.as_str());
        let v = if ms { ms_from_formatted_exec(&f) } else { db_from_formatted_exec(&f) };
        match v {
            Some(x) => { pts.push(CalPoint { physical: x, norm: s[k].norm }); }
            None => {}
        }
        k = k + 1;
    }
    proof { assert(s@.take(k as int) =~= s@); }
    pts
}

fn invert_samples_exec(meta: &ParamMeta, index: i32, x: i64) -> (r: Option<i64>)
    ensures
        same(r, invert_samples(*meta, index, x as int)),
{
    let p = match sample_pos_exec(&meta.samples, index) {
        Some(p) => p,
        None => { return None; }
    };
    let s = &meta.samples[p].samples;
    if s.len() == 0 {
        return None;
    }
    let mut has_db = false;
    let mut has_ms = false;
    let mut k: usize = 0;
    while k < s.len()
        invariant
            k <= s@.len(),
            has_db <==> exists|j: int| 0 <= j < k && sample_mentions_db(#[trigger] s@[j]),
            has_ms <==> exists|j: int| 0 <= j < k && sample_mentions_time(#[trigger] s@[j]),
        decreases s@.len() - k,
    {
        let f = lower_vec(&chars_of(s[k].formatted.as_str()));
        if contains_lit(&f, "db") {
            has_db = true;
        }
        if contains_lit(&f, "ms") || ends_with_lit(&trim_end_vec(&f), "s") {
            has_ms = true;
        }
        proof {
            if has_db && !(exists|j: int| 0 <= j < k && sample_mentions_db(#[trigger] s@[j])) {
                assert(sample_mentions_db(s@[k as int]));
            }
            if has_ms && !(exists|j: int| 0 <= j < k && sample_mentions_time(#[trigger] s@[j])) {
                assert(sample_mentions_time(s@[k as int]));
            }
        }
        k = k + 1;
    }
    match all_points_exec(s, has_db, has_ms) {
        Some(pts) => invert_piecewise_exec(&pts, x),
        None => None,
    }
}

fn invert_samples_filtered_exec(meta: &ParamMeta, index: i32, x: i64, ms: bool) -> (r: Option<i64>)
    ensures
        same(r, invert_samples_filtered(*meta, index, x as int, ms)),
{
    let p = match sample_pos_exec(&meta.samples, index) {
        Some(p) => p,
        None => { return None; }
    };
    let pts = filtered_points_exec(&meta.samples[p].samples, ms);
    invert_piecewise_exec(&pts, x)
}

fn invert_triplet_exec(meta: &ParamMeta, index: i32, x: i64) -> (r: Option<i64>)
    ensures
        same(r, invert_triplet(*meta, index, x as int)),
{
    let p = match triplet_pos_exec(&meta.triplets, index) {
        Some(p) => p,
        None => { return None; }
    };
    let t = &meta.triplets[p].triplet;
    let lo = first_number_exec(&chars_of(t.min.as_str()));
    let hi = first_number_exec(&chars_of(t.max.as_str()));
    match (lo, hi) {
        (Some(a), Some(b)) => invert_range_exec(a, b, x),
        _ => None,
    }
}

fn or_else_exec(a: Option<i64>, b: Option<i64>) -> (r: Option<i64>)
    ensures
        r == (if a is Some { a } else { b }),
{
    if a.is_some() { a } else { b }
}

fn resolve_db_exec(meta: &ParamMeta, index: i32, db: i64) -> (r: Option<i64>)
    requires
        -2_000_000_000_000_000 < db < 2_000_000_000_000_000,
    ensures
        same(r, resolve_db(*meta, index, db as int)),
{
    let a = invert_samples_filtered_exec(meta, index, db, false);
    if a.is_some() {
        return a;
    }
    if 54 <= index && index <= 82 {
        let b = invert_range_exec(-12 * SCALE, 12 * SCALE, db);
        if b.is_some() {
            return b;
        }
    }
    invert_triplet_exec(meta, index, db)
}

fn resolve_number_exec(meta: &ParamMeta, index: i32, v: i64) -> (r: Result<i64, ResolveErrorKind>)
    ensures
        r matches Ok(x) ==> resolve_number(*meta, index, v as int) == Ok::<int, ResolveErrorKind>(x as int),
        r matches Err(e) ==> resolve_number(*meta, index, v as int) == Err::<int, ResolveErrorKind>(e),
{
    if 0 <= v && v <= SCALE {
        return Ok(v);
    }
    if (index == PAN_INDEX_1 || index == PAN_INDEX_2) && -SCALE <= v && v <= SCALE {
        return Ok((v + SCALE) / 2);
    }
    match invert_samples_exec(meta, index, v) {
        Some(x) => { return Ok(x); }
        None => {}
    }
    match invert_triplet_exec(meta, index, v) {
        Some(x) => Ok(x),
        None => Err(ResolveErrorKind::NotNormalized),
    }
}

fn clamp_unit_exec(v: i64) -> (r: i64)
    ensures
        r == clamp_int(v as int),
{
    if v < 0 { 0 } else if v > SCALE { SCALE } else { v }
}

fn resolve_text_exec(meta: &ParamMeta, index: i32, s: &Vec<char>) -> (r: Result<i64, ResolveErrorKind>)
    ensures
        r matches Ok(x) ==> resolve_text(*meta, index, s@) == Ok::<int, ResolveErrorKind>(x as int),
        r matches Err(e) ==> resolve_text(*meta, index, s@) == Err::<int, ResolveErrorKind>(e),
{
    let t = trim_vec(s);
    let l = lower_vec(&t);
    if t.len() == 0 {
        return Err(ResolveErrorKind::EmptyString);
    }
    match bool_like_exec(&t) {
        Some(v) => { return Ok(v); }
        None => {}
    }
    if index == AMP_TYPE_INDEX {
        match amp_type_exec(&t) {
            Some(v) => { return Ok(v); }
            None => {}
        }
    }
    match enum_value_exec(meta, index, &t) {
        Some(v) => { return Ok(clamp_unit_exec(v)); }
        None => {}
    }
    if contains_lit(&t, "%") {
        match percent_exec(&t) {
            Some(v) => { return Ok(v); }
            None => {}
        }
    }
    if eq_lit(&l, "flat") && 54 <= index && index <= 82 {
        return Ok(SCALE / 2);
    }
    if contains_lit(&l, "db") {
        match db_value_exec(&t) {
            Some(db) => {
                match resolve_db_exec(meta, index, db) {
                    Some(v) => { return Ok(v); }
                    None => {}
                }
            }
            None => {}
        }
    }
    match ms_value_exec(&t) {
        Some(ms) => {
            let a = invert_samples_filtered_exec(meta, index, ms, true);
            let b = or_else_exec(a, if a.is_some() { None } else { invert_triplet_exec(meta, index, ms) });
            return match b {
                Some(v) => Ok(v),
                None => Err(ResolveErrorKind::TimeUnmapped),
            };
        }
        None => {}
    }
    match hz_value_exec(&t) {
        Some(hz) => {
            let a = invert_samples_exec(meta, index, hz);
            let b = or_else_exec(a, if a.is_some() { None } else { invert_triplet_exec(meta, index, hz) });
            return match b {
                Some(v) => Ok(v),
                None => Err(ResolveErrorKind::HzUnmapped),
            };
        }
        None => {}
    }
    match bpm_value_exec(&t) {
        Some(bpm) => {
            let a = invert_samples_exec(meta, index, bpm);
            let b = or_else_exec(a, if a.is_some() { None } else { invert_triplet_exec(meta, index, bpm) });
            return match b {
                Some(v) => Ok(v),
                None => Err(ResolveErrorKind::BpmUnmapped),
            };
        }
        None => {}
    }
    Err(ResolveErrorKind::Unresolved)
}

/// Resolves one proposed value for `index` to a normalized value
/// (see `resolve_value`).
pub fn resolve_value_for_index(meta: &ParamMeta, index: i32, value: &AiValue) -> (r: Result<i64, ResolveErrorKind>)
    ensures
        r matches Ok(x) ==> resolve_value(*meta, index, *value) == Ok::<int, ResolveErrorKind>(x as int),
        r matches Err(e) ==> resolve_value(*meta, index, *value) == Err::<int, ResolveErrorKind>(e),
{
    let num = match value {
        AiValue::Number(n) => Some(*n),
        AiValue::Text(s) => parse_fixed_exec(&trim_vec(&chars_of(s.as_str()))),
        AiValue::Other => None,
    };
    match num {
        Some(n) => resolve_number_exec(meta, index, n),
        None => match value {
            AiValue::Text(s) => resolve_text_exec(meta, index, &chars_of(s.as_str())),
            _ => Err(ResolveErrorKind::UnsupportedType),
        },
    }
}

/// Resolves every proposed change, in order, one output change per input
/// change; fails with the first value that cannot be resolved.
pub fn resolve_ai_params(meta: &ParamMeta, ai_params: Vec<AiParamChange>) -> (r: Result<Vec<ParamChange>, ResolveError>)
    ensures
        r is Ok <==> forall|j: int| 0 <= j < ai_params@.len()
            ==> #[trigger] resolve_value(*meta, ai_params@[j].index, ai_params@[j].value) is Ok,
        r matches Ok(v) ==> v@.len() == ai_params@.len(),
        r matches Ok(v) ==> forall|j: int| 0 <= j < v@.len() ==> (#[trigger] v@[j]).index == ai_params@[j].index
            && resolve_value(*meta, ai_params@[j].index, ai_params@[j].value) == Ok::<int, ResolveErrorKind>(v@[j].value as int),
        r matches Err(e) ==> exists|j: int| 0 <= j < ai_params@.len()
            && (forall|m: int| 0 <= m < j ==> #[trigger] resolve_value(*meta, ai_params@[m].index, ai_params@[m].value) is Ok)
            && e.index == ai_params@[j].index
            && resolve_value(*meta, ai_params@[j].index, ai_params@[j].value) == Err::<int, ResolveErrorKind>(e.kind),
{
    let mut out: Vec<ParamChange> = Vec::new();
    let mut i: usize = 0;
    while i < ai_params.len()
        invariant
            i <= ai_params@.len(),
            out@.len() == i,
            forall|j: int| 0 <= j < i ==> (#[trigger] out@[j]).index == ai_params@[j].index
                && resolve_value(*meta, ai_params@[j].index, ai_params@[j].value) == Ok::<int, ResolveErrorKind>(out@[j].value as int),
        decreases ai_params@.len() - i,
    {
        let p = &ai_params[i];
        match resolve_value_for_index(meta, p.index, &p.value) {
            Ok(v) => { out.push(ParamChange { index: p.index, value: v }); }
            Err(kind) => {
                proof {
                    assert forall|m: int| 0 <= m < i implies #[trigger] resolve_value(*meta, ai_params@[m].index, ai_params@[m].value) is Ok by {
                        assert(out@[m].index == ai_params@[m].index);
                    }
                }
                return Err(ResolveError { kind, index: p.index });
            }
        }
        i = i + 1;
    }
    proof {
        assert forall|j: int| 0 <= j < ai_params@.len() implies #[trigger] resolve_value(*meta, ai_params@[j].index, ai_params@[j].value) is Ok by {
            assert(out@[j].index == ai_params@[j].index);
        }
    }
    Ok(out)
}

/// Human-readable text for each kind of resolve failure.
pub open spec fn error_text(k: ResolveErrorKind) -> &'static str {
    match k {
        ResolveErrorKind::NotNormalized => "numeric value is not a normalized 0..1 value, and no calibration mapping was available",
        ResolveErrorKind::UnsupportedType => "unsupported value type",
        ResolveErrorKind::EmptyString => "empty string value",
        ResolveErrorKind::TimeUnmapped => "time unit provided but no matching calibration mapping was found",
        ResolveErrorKind::HzUnmapped => "hz unit provided but no calibration mapping was available",
        ResolveErrorKind::BpmUnmapped => "bpm unit provided but no calibration mapping was available",
        ResolveErrorKind::Unresolved => "could not resolve string value",
    }
}

impl ResolveError {
    /// Describes the failure.
    pub fn message(&self) -> (r: String)
        ensures
            r@ == error_text(self.kind)@,
    {
        let t: &str = match self.kind {
            ResolveErrorKind::NotNormalized => "numeric value is not a normalized 0..1 value, and no calibration mapping was available",
            ResolveErrorKind::UnsupportedType => "unsupported value type",
            ResolveErrorKind::EmptyString => "empty string value",
            ResolveErrorKind::TimeUnmapped => "time unit provided but no matching calibration mapping was found",
            ResolveErrorKind::HzUnmapped => "hz unit provided but no calibration mapping was available",
            ResolveErrorKind::BpmUnmapped => "bpm unit provided but no calibration mapping was available",
            ResolveErrorKind::Unresolved => "could not resolve string value",
        };
        String::from_str(t)
    }
}

fn opt(value: i64, label: &str) -> (r: ParamEnumOption)
    ensures
        r.value == value,
        r.label@ == label@,
{
    ParamEnumOption { value, label: String::from_str(label) }
}

pub open spec fn option_is(o: ParamEnumOption, value: i64, label: Seq<char>) -> bool {
    o.value == value && o.label@ == label
}

/// The microphone IR options shared by both mic selectors.
pub open spec fn is_mic_options(o: Seq<ParamEnumOption>) -> bool {
    &&& o.len() == 7
    &&& option_is(o[0], 41748, "Dynamic 57"@)
    &&& option_is(o[1], 166748, "Dynamic 421"@)
    &&& option_is(o[2], 333496, "Condenser 414"@)
    &&& option_is(o[3], 500244, "Condenser 184"@)
    &&& option_is(o[4], 666992, "Ribbon 160"@)
    &&& option_is(o[5], 833740, "Ribbon 121"@)
    &&& option_is(o[6], 958496, "Custom IR"@)
}

/// The built-in enumeration tables: cab type, both mic IR selectors, reverb
/// mode and WOW type, with their observed midpoints.
pub open spec fn is_default_enums(r: Seq<EnumTable>) -> bool {
    &&& r.len() == 5
    &&& r[0].index == CAB_TYPE_INDEX && r[0].options@.len() == 3
    &&& option_is(r[0].options@[0], 125977, "Cab 1"@)
    &&& option_is(r[0].options@[1], 500977, "Cab 2"@)
    &&& option_is(r[0].options@[2], 875000, "Cab 3"@)
    &&& r[1].index == 92 && is_mic_options(r[1].options@)
    &&& r[2].index == 99 && is_mic_options(r[2].options@)
    &&& r[3].index == 113 && r[3].options@.len() == 2
    &&& option_is(r[3].options@[0], 251953, "Reverb"@)
    &&& option_is(r[3].options@[1], 751953, "Shimmer"@)
    &&& r[4].index == 5 && r[4].options@.len() == 3
    &&& option_is(r[4].options@[0], 128906, "FATSO"@)
    &&& option_is(r[4].options@[1], 503906, "BLADE 1"@)
    &&& option_is(r[4].options@[2], 875000, "BLADE 2"@)
}

fn mic_options() -> (r: Vec<ParamEnumOption>)
    ensures
        is_mic_options(r@),
{
    vec![
        opt(41748, "Dynamic 57"),
        opt(166748, "Dynamic 421"),
        opt(333496, "Condenser 414"),
        opt(500244, "Condenser 184"),
        opt(666992, "Ribbon 160"),
        opt(833740, "Ribbon 121"),
        opt(958496, "Custom IR"),
    ]
}

/// Enumeration options observed on current plugin builds (see `is_default_enums`).
pub fn default_enum_options() -> (r: Vec<EnumTable>)
    ensures
        is_default_enums(r@),
{
    vec![
        EnumTable { index: CAB_TYPE_INDEX, options: vec![opt(125977, "Cab 1"), opt(500977, "Cab 2"), opt(875000, "Cab 3")] },
        EnumTable { index: 92, options: mic_options() },
        EnumTable { index: 99, options: mic_options() },
        EnumTable { index: 113, options: vec![opt(251953, "Reverb"), opt(751953, "Shimmer")] },
        EnumTable { index: 5, options: vec![opt(128906, "FATSO"), opt(503906, "BLADE 1"), opt(875000, "BLADE 2")] },
    ]
}

fn triplet(index: i32, min: &str, mid: &str, max: &str) -> (r: TripletEntry)
    ensures
        r.index == index,
        r.triplet.min@ == min@,
        r.triplet.mid@ == mid@,
        r.triplet.max@ == max@,
{
    TripletEntry {
        index,
        triplet: ParamFormatTriplet { min: String::from_str(min), mid: String::from_str(mid), max: String::from_str(max) },
    }
}

pub open spec fn triplet_is(e: TripletEntry, index: i32, min: Seq<char>, mid: Seq<char>, max: Seq<char>) -> bool {
    e.index == index && e.triplet.min@ == min && e.triplet.mid@ == mid && e.triplet.max@ == max
}

/// The built-in format triplets: input/output gain, gate, delay tempo and
/// reverb time and cuts.
pub open spec fn is_default_triplets(r: Seq<TripletEntry>) -> bool {
    &&& r.len() == 7
    &&& triplet_is(r[0], 0, "-24.0"@, "0.0"@, "24.0"@)
    &&& triplet_is(r[1], 1, "-24.0"@, "0.0"@, "24.0"@)
    &&& triplet_is(r[2], 2, "-96.0"@, "-48.0"@, "0.0"@)
    &&& triplet_is(r[3], 108, "40.0"@, "140.0"@, "240.0"@)
    &&& triplet_is(r[4], 115, "250.00"@, "5125.00"@, "10000.00"@)
    &&& triplet_is(r[5], 116, "50"@, "375"@, "700"@)
    &&& triplet_is(r[6], 117, "1000"@, "5500"@, "10000"@)
}

/// Format triplets observed on current plugin builds (see `is_default_triplets`).
pub fn default_formatted_value_triplets() -> (r: Vec<TripletEntry>)
    ensures
        is_default_triplets(r@),
{
    vec![
        triplet(0, "-24.0", "0.0", "24.0"),
        triplet(1, "-24.0", "0.0", "24.0"),
        triplet(2, "-96.0", "-48.0", "0.0"),
        triplet(108, "40.0", "140.0", "240.0"),
        triplet(115, "250.00", "5125.00", "10000.00"),
        triplet(116, "50", "375", "700"),
        triplet(117, "1000", "5500", "10000"),
    ]
}

impl ParamMeta {
    /// The built-in defaults with `enums`, `triplets` and `samples` layered on
    /// top (an entry given here overrides a default for the same index).
    pub fn with_overrides(enums: Vec<EnumTable>, triplets: Vec<TripletEntry>, samples: Vec<SampleTable>) -> (r: ParamMeta)
        ensures
            r.enums@.len() == 5 + enums@.len(),
            is_default_enums(r.enums@.take(5)),
            r.enums@.skip(5) == enums@,
            is_default_triplets(r.triplets@.take(7)),
            r.triplets@.len() == 7 + triplets@.len(),
            r.triplets@.skip(7) == triplets@,
            r.samples@ == samples@,
    {
        let mut e = default_enum_options();
        let mut t = default_formatted_value_triplets();
        let ghost e0 = e@;
        let ghost t0 = t@;
        let mut en = enums;
        let mut tr = triplets;
        e.append(&mut en);
        t.append(&mut tr);
        proof {
            assert(e@.skip(5) =~= enums@);
            assert(t@.skip(7) =~= triplets@);
            assert(e@.take(5) =~= e0);
            assert(t@.take(7) =~= t0);
        }
        ParamMeta { enums: e, triplets: t, samples }
    }
}

/// End of the line that starts at `i`: the next line feed, or the end.
pub open spec fn line_end(s: Seq<char>, i: int) -> int
    decreases s.len() - i,
{
    if i < 0 || i >= s.len() || s[i] == '\n' { i } else { line_end(s, i + 1) }
}

pub open spec fn starts_with(s: Seq<char>, pat: Seq<char>) -> bool {
    pat.len() <= s.len() && s.take(pat.len() as int) == pat
}

/// The payload of the first line at or after `i` that, trimmed, starts with
/// `key` and has a non-empty trimmed rest.
pub open spec fn json_line_from(s: Seq<char>, key: Seq<char>, i: int) -> Option<Seq<char>>
    decreases s.len() - i,
{
    if i < 0 || i >= s.len() {
        None
    } else {
        let j = line_end(s, i);
        if j < i || j > s.len() {
            None
        } else if starts_with(trim(s.subrange(i, j)), key)
            && trim(trim(s.subrange(i, j)).skip(key.len() as int)).len() > 0 {
            Some(trim(trim(s.subrange(i, j)).skip(key.len() as int)))
        } else if j >= s.len() {
            None
        } else {
            json_line_from(s, key, j + 1)
        }
    }
}

proof fn lemma_line_end(s: Seq<char>, i: int)
    requires
        0 <= i <= s.len(),
    ensures
        i <= line_end(s, i) <= s.len(),
    decreases s.len() - i,
{
    if i < s.len() && s[i] != '\n' {
        lemma_line_end(s, i + 1);
    }
}

/// Finds a metadata line such as `ENUM_OPTIONS_JSON={...}` in a prompt and
/// returns what follows the key, trimmed.
pub fn extract_prompt_json_line(prompt: &str, key: &str) -> (r: Option<String>)
    ensures
        r matches Some(v) ==> json_line_from(prompt@, key@, 0) == Some(v@),
        r is None ==> json_line_from(prompt@, key@, 0) is None,
{
    let s = chars_of(prompt);
    let k = chars_of(key);
    let n = s.len();
    let mut i: usize = 0;
    while i < n
        invariant
            n == s@.len(),
            s@ == prompt@,
            k@ == key@,
            i <= n,
            json_line_from(prompt@, key@, 0) == json_line_from(prompt@, key@, i as int),
        decreases n - i,
    {
        let mut j: usize = i;
        while j < n && s[j] != '\n'
            invariant
                n == s@.len(),
                i <= j <= n,
                line_end(s@, i as int) == line_end(s@, j as int),
            decreases n - j,
        {
            j = j + 1;
        }
        proof { lemma_line_end(s@, j as int); }
        let t = trim_vec(&slice_vec(&s, i, j));
        if k.len() <= t.len() {
            let head = slice_vec(&t, 0, k.len());
            if seq_eq(&head, &k) {
                let rest = trim_vec(&slice_vec(&t, k.len(), t.len()));
                proof {
                    assert(head@ =~= t@.take(k@.len() as int));
                    assert(t@.subrange(k@.len() as int, t@.len() as int) =~= t@.skip(k@.len() as int));
                }
                if rest.len() > 0 {
                    return Some(string_of(&rest));
                }
            } else {
                proof { assert(head@ =~= t@.take(k@.len() as int)); }
            }
        }
        if j == n {
            return None;
        }
        i = j + 1;
    }
    None
}

/// Whether `a` and `b` are equal once trimmed, ignoring ASCII case.
pub fn eq_ignore_case(a: &str, b: &str) -> (r: bool)
    ensures
        r == same_ignoring_case(a@, b@),
{
    let x = lower_vec(&trim_vec(&chars_of(a)));
    let y = lower_vec(&trim_vec(&chars_of(b)));
    seq_eq(&x, &y)
}

pub open spec fn read_filtered(f: Seq<char>, ms: bool) -> Option<int> {
    if ms { ms_from_formatted(f) } else { db_from_formatted(f) }
}

proof fn lemma_filtered_contains(s: Seq<ParamFormatSample>, ms: bool, k: int, x: int)
    requires
        0 <= k < s.len(),
        read_filtered(s[k].formatted@, ms) == Some(x),
    ensures
        exists|j: int| 0 <= j < filtered_points(s, ms).len()
            && #[trigger] filtered_points(s, ms)[j] == (CalPoint { physical: x as i64, norm: s[k].norm }),
    decreases s.len(),
{
    let rest = filtered_points(s.drop_last(), ms);
    if k == s.len() - 1 {
        assert(filtered_points(s, ms) == rest.push(CalPoint { physical: x as i64, norm: s[k].norm }));
        assert(filtered_points(s, ms)[rest.len() as int] == (CalPoint { physical: x as i64, norm: s[k].norm }));
    } else {
        assert(s.drop_last()[k] == s[k]);
        lemma_filtered_contains(s.drop_last(), ms, k, x);
        let j = choose|j: int| 0 <= j < rest.len() && #[trigger] rest[j] == (CalPoint { physical: x as i64, norm: s[k].norm });
        let f = s.last().formatted@;
        let v = if ms { ms_from_formatted(f) } else { db_from_formatted(f) };
        match v {
            Some(y) => {
                assert(filtered_points(s, ms) == rest.push(CalPoint { physical: y as i64, norm: s.last().norm }));
                assert(filtered_points(s, ms)[j] == rest[j]);
            }
            None => {
                assert(filtered_points(s, ms) == rest);
                assert(filtered_points(s, ms)[j] == rest[j]);
            }
        }
    }
}

/// Round trip through a sample table: when the displays of the samples read
/// (as dB, or as a time when `ms`) to distinct physical values, inverting the
/// value read from sample `k`'s display gives back that sample's normalized
/// value, clamped to the unit range.
pub proof fn lemma_sample_round_trip(meta: ParamMeta, index: i32, k: int, ms: bool, x: int)
    requires
        sample_pos(meta.samples@, index) >= 0,
        0 <= k < meta.samples@[sample_pos(meta.samples@, index)].samples@.len(),
        read_filtered(meta.samples@[sample_pos(meta.samples@, index)].samples@[k].formatted@, ms) == Some(x),
        i64::MIN <= x <= i64::MAX,
        distinct_physical(filtered_points(meta.samples@[sample_pos(meta.samples@, index)].samples@, ms)),
    ensures
        invert_samples_filtered(meta, index, x, ms)
            == Some(clamp_unit(meta.samples@[sample_pos(meta.samples@, index)].samples@[k].norm) as int),
{
    let s = meta.samples@[sample_pos(meta.samples@, index)].samples@;
    let pts = filtered_points(s, ms);
    lemma_filtered_contains(s, ms, k, x);
    let j = choose|j: int| 0 <= j < pts.len() && #[trigger] pts[j] == (CalPoint { physical: x as i64, norm: s[k].norm });
    lemma_piecewise_hits_sample(pts, j);
}

/// Round trip from a sampled dB display back to its sample: resolving the
/// display text of sample `k` of parameter `index` gives that sample's
/// normalized value, provided the text reads unambiguously as a dB amount
/// (it is no bare number, no switch word, amp channel, enum label, percent
/// or "flat", and both dB readings agree) and the table's dB readings are
/// distinct.
pub proof fn lemma_db_display_round_trip(meta: ParamMeta, index: i32, k: int, x: int)
    requires
        sample_pos(meta.samples@, index) >= 0,
        0 <= k < meta.samples@[sample_pos(meta.samples@, index)].samples@.len(),
        ({
            let f = meta.samples@[sample_pos(meta.samples@, index)].samples@[k].formatted@;
            let t = trim(f);
            &&& t.len() > 0
            &&& parse_fixed(t) is None
            &&& bool_like(t) is None
            &&& (index == AMP_TYPE_INDEX ==> amp_type(t) is None)
            &&& enum_value(meta, index, t) is None
            &&& !contains_sub(t, "%"@)
            &&& lower_seq(t) != "flat"@
            &&& contains_sub(lower_seq(t), "db"@)
            &&& db_value(t) == Some(x)
            &&& db_from_formatted(f) == Some(x)
        }),
        i64::MIN <= x <= i64::MAX,
        distinct_physical(filtered_points(meta.samples@[sample_pos(meta.samples@, index)].samples@, false)),
    ensures
        resolve_value(meta, index, AiValue::Text(meta.samples@[sample_pos(meta.samples@, index)].samples@[k].formatted))
            == Ok::<int, ResolveErrorKind>(clamp_unit(meta.samples@[sample_pos(meta.samples@, index)].samples@[k].norm) as int),
{
    let s = meta.samples@[sample_pos(meta.samples@, index)].samples@;
    let f = s[k].formatted@;
    assert(read_filtered(f, false) == Some(x));
    lemma_sample_round_trip(meta, index, k, false, x);
    assert(resolve_db(meta, index, x) == Some(clamp_unit(s[k].norm) as int));
}

/// Round trip from a sampled time display back to its sample: resolving the
/// display text of sample `k` of parameter `index` gives that sample's
/// normalized value, provided the text reads unambiguously as a time (it is
/// no bare number, switch word, amp channel, enum label, percent, "flat" or
/// dB amount, and both time readings agree) and the table's time readings
/// are distinct.
pub proof fn lemma_time_display_round_trip(meta: ParamMeta, index: i32, k: int, x: int)
    requires
        sample_pos(meta.samples@, index) >= 0,
        0 <= k < meta.samples@[sample_pos(meta.samples@, index)].samples@.len(),
        ({
            let f = meta.samples@[sample_pos(meta.samples@, index)].samples@[k].formatted@;
            let t = trim(f);
            &&& t.len() > 0
            &&& parse_fixed(t) is None
            &&& bool_like(t) is None
            &&& (index == AMP_TYPE_INDEX ==> amp_type(t) is None)
            &&& enum_value(meta, index, t) is None
            &&& !contains_sub(t, "%"@)
            &&& lower_seq(t) != "flat"@
            &&& !contains_sub(lower_seq(t), "db"@)
            &&& ms_value(t) == Some(x)
            &&& ms_from_formatted(f) == Some(x)
        }),
        i64::MIN <= x <= i64::MAX,
        distinct_physical(filtered_points(meta.samples@[sample_pos(meta.samples@, index)].samples@, true)),
    ensures
        resolve_value(meta, index, AiValue::Text(meta.samples@[sample_pos(meta.samples@, index)].samples@[k].formatted))
            == Ok::<int, ResolveErrorKind>(clamp_unit(meta.samples@[sample_pos(meta.samples@, index)].samples@[k].norm) as int),
{
    let s = meta.samples@[sample_pos(meta.samples@, index)].samples@;
    let f = s[k].formatted@;
    assert(read_filtered(f, true) == Some(x));
    lemma_sample_round_trip(meta, index, k, true, x);
}

/// Position of the first change to `idx` in `s`, or -1.
pub open spec fn first_change(s: Seq<ParamChange>, idx: i32) -> int
    decreases s.len(),
{
    if s.len() == 0 {
        -1
    } else {
        let r = first_change(s.drop_last(), idx);
        if r >= 0 { r } else if s.last().index == idx { s.len() - 1 } else { -1 }
    }
}

/// `s` with its first change to `idx` set to `value`, or with a change
/// appended when there is none.
pub open spec fn upserted(s: Seq<ParamChange>, idx: i32, value: i64) -> Seq<ParamChange> {
    let p = first_change(s, idx);
    if p >= 0 { s.update(p, ParamChange { index: idx, value }) } else { s.push(ParamChange { index: idx, value }) }
}

proof fn lemma_first_change_stable(s: Seq<ParamChange>, idx: i32, m: int)
    requires
        0 <= m <= s.len(),
        first_change(s.take(m), idx) >= 0,
    ensures
        first_change(s, idx) == first_change(s.take(m), idx),
        first_change(s, idx) < m,
    decreases s.len() - m,
{
    if m < s.len() {
        assert(s.take(m + 1).drop_last() =~= s.take(m));
        lemma_first_change_bound(s.take(m), idx);
        lemma_first_change_stable(s, idx, m + 1);
    } else {
        assert(s.take(m) =~= s);
        lemma_first_change_bound(s, idx);
    }
}

proof fn lemma_first_change_bound(s: Seq<ParamChange>, idx: i32)
    ensures
        first_change(s, idx) < s.len(),
    decreases s.len(),
{
    if s.len() > 0 {
        lemma_first_change_bound(s.drop_last(), idx);
    }
}

fn first_change_exec(s: &Vec<ParamChange>, idx: i32) -> (r: Option<usize>)
    ensures
        r matches Some(p) ==> first_change(s@, idx) == p as int && p < s@.len(),
        r is None ==> first_change(s@, idx) == -1,
{
    let mut i: usize = 0;
    assert(s@.take(0) =~= Seq::<ParamChange>::empty());
    while i < s.len()
        invariant
            i <= s@.len(),
            first_change(s@.take(i as int), idx) == -1,
        decreases s@.len() - i,
    {
        proof { assert(s@.take(i as int + 1).drop_last() =~= s@.take(i as int)); }
        if s[i].index == idx {
            proof { lemma_first_change_stable(s@, idx, i as int + 1); }
            return Some(i);
        }
        i = i + 1;
    }
    proof { assert(s@.take(i as int) =~= s@); }
    None
}

/// Sets the first change to `index`, or appends one.
pub fn upsert_param(params: &mut Vec<ParamChange>, index: i32, value: i64)
    ensures
        final(params)@ == upserted(old(params)@, index, value),
{
    match first_change_exec(params, index) {
        Some(p) => { params.set(p, ParamChange { index, value }); }
        None => { params.push(ParamChange { index, value }); }
    }
}

/// The value of the first change to `idx`, 0 when there is none.
pub open spec fn first_value_or_zero(s: Seq<ParamChange>, idx: i32) -> i64 {
    let p = first_change(s, idx);
    if p >= 0 { s[p].value } else { 0 }
}

/// What the prompt-driven fixes leave: when the prompt asks for shimmer and
/// the reverb is on, the reverb mode is set to the option labelled
/// "shimmer" in the prompt's own enumeration of the mode (if it lists one).
pub open spec fn autofixed(prompt: Seq<char>, enums: Seq<EnumTable>, s: Seq<ParamChange>) -> Seq<ParamChange> {
    let p = enum_pos(enums, 113);
    if contains_sub(lower_seq(prompt), "shimmer"@) && first_value_or_zero(s, 112) >= SCALE / 2 && p >= 0
        && option_pos(enums[p].options@, "shimmer"@) >= 0 {
        upserted(s, 113, enums[p].options@[option_pos(enums[p].options@, "shimmer"@)].value)
    } else {
        s
    }
}

/// Applies the prompt-driven fixes (see `autofixed`); `prompt_enums` are the
/// enumerations the prompt itself carries.
pub fn apply_prompt_autofixes(prompt: &str, prompt_enums: &Vec<EnumTable>, params: &mut Vec<ParamChange>)
    ensures
        final(params)@ == autofixed(prompt@, prompt_enums@, old(params)@),
{
    let pl = lower_vec(&chars_of(prompt));
    if !contains_lit(&pl, "shimmer") {
        return;
    }
    let reverb = match first_change_exec(params, 112) {
        Some(p) => params[p].value,
        None => 0,
    };
    if reverb < SCALE / 2 {
        return;
    }
    let p = match enum_pos_exec(prompt_enums, 113) {
        Some(p) => p,
        None => { return; }
    };
    let key = chars_of("shimmer");
    match option_pos_exec(&prompt_enums[p].options, &key) {
        Some(k) => {
            let v = prompt_enums[p].options[k].value;
            upsert_param(params, 113, v);
        }
        None => {}
    }
}

} // verus!
