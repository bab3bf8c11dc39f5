//! The user-facing subcommands, their arguments, and the decisions and text
//! of the `list`, `info` and `clean` commands.

use vstd::prelude::*;

use crate::errors::DcmFreeError;
use crate::format::{age, age_text, bytes, bytesize_text};
use crate::layers::{age_nanos, LayerInfo};
use crate::text::{decimal, decimal_digits, hex_digits, hex_fixed, pad_left, pad_left_text, trim};
use crate::time::{duration_debug_text, nanos_per_sec, Duration, SystemTime};

verus! {

/// Reclaim disk space by destroying orphan Windows container layers.
#[derive(Debug)]
pub struct Cli {
    /// Verbosity: -v for info, -vv for debug, -vvv for trace.
    pub verbose: u8,
    /// Disable colorised/styled output.
    pub no_color: bool,
    pub command: Command,
}

/// The subcommands.
#[derive(Debug)]
pub enum Command {
    /// List layers, their sizes, ages, and whether they're orphan.
    List(ListArgs),
    /// Print summary statistics about the layers directory.
    Info(CommonArgs),
    /// Destroy orphan layers (requires Administrator + backup/restore privilege).
    Clean(CleanArgs),
    /// Open the native Windows GUI.
    Gui,
}

/// Arguments every layer-reading subcommand takes.
#[derive(Debug)]
pub struct CommonArgs {
    /// Override the layers directory (defaults to the HCS path on Windows).
    pub layers_dir: Option<String>,
    /// Output as machine-readable JSON instead of a human table.
    pub json: bool,
}

/// Arguments of `list`.
#[derive(Debug)]
pub struct ListArgs {
    pub common: CommonArgs,
}

/// Arguments of `clean`.
#[derive(Debug)]
pub struct CleanArgs {
    pub common: CommonArgs,
    /// Show what would be destroyed without actually destroying anything.
    pub dry_run: bool,
    /// Skip the interactive confirmation prompt.
    pub yes: bool,
    /// Only destroy layers older than this duration (e.g. "1d", "7d", "30m").
    /// Default: 1 day. Pass "0" to disable the age guard.
    pub min_age: Duration,
}

/// What `humantime::parse_duration` gives for `s`: the parsed span in
/// nanoseconds, or the text of its error.
pub uninterp spec fn humantime_parse(s: Seq<char>) -> Result<int, Seq<char>>;

/// Whether `c` is an ASCII decimal digit.
pub open spec fn is_ascii_digit(c: char) -> bool {
    0x30 <= (c as u32) <= 0x39
}

/// Whether `c` ends a number in a duration text: an ASCII letter (a unit
/// begins), 'µ', or the decimal point.
pub open spec fn ends_number(c: char) -> bool {
    (0x41 <= (c as u32) <= 0x5A) || (0x61 <= (c as u32) <= 0x7A) || (c as u32) == 0xB5 || c
        == '.'
}

/// The weight of a number read so far: its value plus one, or nothing when
/// no digit has been read.
pub open spec fn number_weight(value: nat, has_digits: bool) -> nat {
    if has_digits {
        value + 1
    } else {
        0
    }
}

/// The weight of the rest `s` of a duration text, the number being read
/// having the value `value` so far: each number (the digits between two
/// characters that `ends_number`, joined across everything else) weighs its
/// value plus one.
pub open spec fn rest_weight(s: Seq<char>, value: nat, has_digits: bool) -> nat
    decreases s.len(),
{
    if s.len() == 0 {
        number_weight(value, has_digits)
    } else if is_ascii_digit(s[0]) {
        rest_weight(s.drop_first(), value * 10 + ((s[0] as u32) - 0x30) as nat, true)
    } else if ends_number(s[0]) {
        number_weight(value, has_digits) + rest_weight(s.drop_first(), 0, false)
    } else {
        rest_weight(s.drop_first(), value, has_digits)
    }
}

/// The weight of a duration text: the sum, over its numbers, of each value plus one.
pub open spec fn duration_weight(s: Seq<char>) -> nat {
    rest_weight(s, 0, false)
}

/// The largest weight of a duration text handed to `humantime`: that many
/// years (of 31_557_600 seconds) still fit in `u64::MAX` seconds.
pub const MAX_DURATION_WEIGHT: u64 = 584_542_046_090;

/// Parses `s` with `humantime::parse_duration`.
///
/// Trusted: the result is that function's, the duration converted to this
/// crate's `Duration` and the error rendered through its `Display` impl.
///
/// `humantime` checks its own arithmetic and answers overflow with an error,
/// except in one place: when the nanoseconds it has gathered reach exactly one
/// second while the whole seconds already stand at `u64::MAX`, it hands both
/// to `std::time::Duration::new`, which panics. `humantime` reads a number as
/// the digits up to a letter, 'µ' or '.', joined across whitespace (any other
/// character ends the parse with an error), so each number it reads is at most
/// the matching number of `duration_weight`. A number `n` followed by a unit
/// adds at most `n` years (31_557_600 seconds, the largest unit), and a
/// fractional part less than one year. So the seconds gathered, plus a carried
/// second, never exceed `duration_weight(s@)` years, which the `requires`
/// keeps within `u64::MAX` seconds: that call never panics.
#[verifier::external_body]
fn humantime_parse_duration(s: &str) -> (r: Result<Duration, String>)
    requires
        duration_weight(s@) <= MAX_DURATION_WEIGHT,
    ensures
        humantime_parse(s@) == match r {
            Ok(d) => Ok::<int, Seq<char>>(d@),
            Err(e) => Err::<int, Seq<char>>(e@),
        },
{
    match humantime::parse_duration(s) {
        Ok(d) => Ok(Duration::new(d.as_secs(), d.subsec_nanos())),
        Err(e) => Err(e.to_string()),
    }
}

/// The rest of a duration text weighs at least the number being read.
proof fn lemma_rest_weight_bound(s: Seq<char>, value: nat, has_digits: bool)
    ensures
        rest_weight(s, value, has_digits) >= number_weight(value, has_digits),
    decreases s.len(),
{
    if s.len() > 0 {
        if is_ascii_digit(s[0]) {
            lemma_rest_weight_bound(
                s.drop_first(),
                value * 10 + ((s[0] as u32) - 0x30) as nat,
                true,
            );
        } else if !ends_number(s[0]) {
            lemma_rest_weight_bound(s.drop_first(), value, has_digits);
        }
    }
}

/// Whether the duration text `s` weighs at most `MAX_DURATION_WEIGHT`.
pub fn duration_weight_within(s: &str) -> (b: bool)
    ensures
        b == (duration_weight(s@) <= MAX_DURATION_WEIGHT),
{
    let chars = crate::text::chars_of(s);
    let n = chars.len();
    let mut total: u64 = 0;
    let mut value: u64 = 0;
    let mut has_digits = false;
    proof {
        assert(s@.skip(0) =~= s@);
    }
    for i in 0..n
        invariant
            n == s@.len(),
            chars@ == s@,
            duration_weight(s@) == total + rest_weight(s@.skip(i as int), value as nat, has_digits),
            total + number_weight(value as nat, has_digits) <= MAX_DURATION_WEIGHT,
            value <= MAX_DURATION_WEIGHT,
    {
        let ghost rest = s@.skip(i as int);
        proof {
            assert(rest[0] == s@[i as int]);
            assert(rest.drop_first() =~= s@.skip(i + 1));
        }
        let c = chars[i];
        let u = c as u32;
        if 0x30 <= u && u <= 0x39 {
            value = value * 10 + (u - 0x30) as u64;
            has_digits = true;
            if total + value >= MAX_DURATION_WEIGHT {
                proof {
                    lemma_rest_weight_bound(s@.skip(i + 1), value as nat, true);
                }
                return false;
            }
        } else if (0x41 <= u && u <= 0x5A) || (0x61 <= u && u <= 0x7A) || u == 0xB5 || c == '.' {
            if has_digits {
                total = total + value + 1;
            }
            value = 0;
            has_digits = false;
        }
    }
    true
}

/// The reason given for a duration text that weighs too much: the words
/// `humantime` uses for a number it cannot represent.
pub open spec fn duration_overflow_reason() -> Seq<char> {
    "number is too large or cannot be represented without a lack of precision (values below 1ns are not supported)"@
}

/// The message for a `--min-age` value `s` that could not be parsed, `reason` saying why.
pub open spec fn invalid_duration_text(s: Seq<char>, reason: Seq<char>) -> Seq<char> {
    "invalid duration '"@ + s + "': "@ + reason
}

/// The outcome of parsing `s` as a duration, given what the parser gave:
/// the span itself, or the parser's error text wrapped in a message that
/// names `s`.
pub fn duration_or_message(s: &str, parsed: Result<Duration, String>) -> (r: Result<Duration, String>)
    ensures
        match parsed {
            Ok(d) => r == Ok::<Duration, String>(d),
            Err(e) => r matches Err(m) && m@ == invalid_duration_text(s@, e@),
        },
{
    match parsed {
        Ok(d) => Ok(d),
        Err(e) => {
            let mut m = "invalid duration '".to_owned();
            m.append(s);
            m.append("': ");
            m.append(e.as_str());
            Err(m)
        },
    }
}

/// Parse a `--min-age` value: "0" is the empty span; a text whose numbers
/// weigh at most `MAX_DURATION_WEIGHT` goes to `humantime`; a heavier one
/// (its numbers adding up to more than 584_542_046_089: even in
/// seconds, a span of more than 18,000 years) is refused as
/// too large, in the words `humantime` uses for such a number.
pub fn parse_duration(s: &str) -> (r: Result<Duration, String>)
    ensures
        s@ == "0"@ ==> (r matches Ok(d) && d@ == 0),
        s@ != "0"@ && duration_weight(s@) <= MAX_DURATION_WEIGHT ==> match humantime_parse(s@) {
            Ok(n) => r matches Ok(d) && d@ == n,
            Err(e) => r matches Err(m) && m@ == invalid_duration_text(s@, e),
        },
        s@ != "0"@ && duration_weight(s@) > MAX_DURATION_WEIGHT ==> (r matches Err(m) && m@
            == invalid_duration_text(s@, duration_overflow_reason())),
{
    proof {
        reveal_strlit("0");
    }
    if s.unicode_len() == 1 && s.get_char(0) == '0' {
        assert(s@ =~= "0"@);
        return Ok(Duration::zero());
    }
    if !duration_weight_within(s) {
        let reason = "number is too large or cannot be represented without a lack of precision (values below 1ns are not supported)".to_owned();
        proof {
            reveal_strlit("number is too large or cannot be represented without a lack of precision (values below 1ns are not supported)");
        }
        return duration_or_message(s, Err(reason));
    }
    let parsed = humantime_parse_duration(s);
    duration_or_message(s, parsed)
}

/// The layers directory the arguments name, else the default HCS path.
pub fn layers_dir(common: &CommonArgs) -> (dir: String)
    ensures
        dir@ == match common.layers_dir {
            Some(p) => p@,
            None => crate::DEFAULT_LAYERS_DIR@,
        },
{
    match &common.layers_dir {
        Some(p) => p.clone(),
        None => crate::DEFAULT_LAYERS_DIR.to_owned(),
    }
}

/// The lower-case form `str::to_lowercase` gives for `s`.
pub uninterp spec fn unicode_lowercase(s: Seq<char>) -> Seq<char>;

/// Lower-cases `s` with `str::to_lowercase`.
///
/// Trusted: the result is that function's (Unicode lower-case mapping).
#[verifier::external_body]
fn lowercase(s: &str) -> (r: String)
    ensures
        r@ == unicode_lowercase(s@),
{
    s.to_lowercase()
}

/// Whether an already trimmed and lower-cased answer is "y" or "yes".
pub fn is_yes_answer(answer: &str) -> (b: bool)
    ensures
        b == (answer@ == "y"@ || answer@ == "yes"@),
{
    proof {
        reveal_strlit("y");
        reveal_strlit("yes");
    }
    let n = answer.unicode_len();
    if n == 1 {
        let b = answer.get_char(0) == 'y';
        assert(b ==> answer@ =~= "y"@);
        b
    } else if n == 3 {
        let b = answer.get_char(0) == 'y' && answer.get_char(1) == 'e' && answer.get_char(2) == 's';
        assert(b ==> answer@ =~= "yes"@);
        b
    } else {
        false
    }
}

/// Whether a line typed at the confirmation prompt accepts: "y" or "yes"
/// once surrounding whitespace is removed and it is lower-cased.
pub fn is_affirmative(line: &str) -> (b: bool)
    ensures
        b == (unicode_lowercase(crate::text::trim_text(line@)) == "y"@ || unicode_lowercase(
            crate::text::trim_text(line@),
        ) == "yes"@),
{
    let lowered = lowercase(trim(line));
    is_yes_answer(lowered.as_str())
}

/// The age text of a layer created at `created`, seen at `now`.
pub open spec fn layer_age_text(l: LayerInfo, now: SystemTime) -> Seq<char> {
    age_text((age_nanos(l.created_at, now) / nanos_per_sec()) as nat)
}

/// The header line of the layer table.
pub open spec fn table_header_text() -> Seq<char> {
    pad_left_text("SIZE"@, 10) + "  "@ + pad_left_text("ORPHAN"@, 7) + "  "@ + pad_left_text(
        "AGE"@,
        10,
    ) + "  ID"@
}

/// The table line of one layer: size, orphan flag and age right-aligned in
/// columns of 10, 7 and 10 characters, then the id.
pub open spec fn table_row_text(l: LayerInfo, now: SystemTime) -> Seq<char> {
    pad_left_text(bytesize_text(l.size_bytes), 10) + "  "@ + pad_left_text(
        if l.orphan {
            "yes"@
        } else {
            "no"@
        },
        7,
    ) + "  "@ + pad_left_text(layer_age_text(l, now), 10) + "  "@ + l.id@
}

/// The age a table row shows is the time elapsed since the layer was
/// created, the age `orphans_older_than` holds against `--min-age`: two
/// layers of the same size, orphan flag and id whose creations lie equally
/// far behind their `now`s get the same row, whatever their last-modified
/// and last-accessed times.
pub proof fn law_table_age_is_age_since_creation(
    l1: LayerInfo,
    now1: SystemTime,
    l2: LayerInfo,
    now2: SystemTime,
)
    requires
        l1.size_bytes == l2.size_bytes,
        l1.orphan == l2.orphan,
        l1.id@ == l2.id@,
        age_nanos(l1.created_at, now1) == age_nanos(l2.created_at, now2),
    ensures
        table_row_text(l1, now1) == table_row_text(l2, now2),
{
}

/// The table line of one layer.
pub fn table_row(l: &LayerInfo, now: SystemTime) -> (line: String)
    ensures
        line@ == table_row_text(*l, now),
{
    let size = bytes(l.size_bytes);
    let mut line = pad_left(size.as_str(), 10);
    line.append("  ");
    let flag = if l.orphan {
        "yes"
    } else {
        "no"
    };
    let flag_col = pad_left(flag, 7);
    line.append(flag_col.as_str());
    line.append("  ");
    let age_str = age(l.age(now));
    let age_col = pad_left(age_str.as_str(), 10);
    line.append(age_col.as_str());
    line.append("  ");
    line.append(l.id.as_str());
    line
}

/// The lines `list` prints for `layers` at `now`: a note when there are
/// none, else a header and one line per layer.
pub fn table_lines(layers: &[LayerInfo], now: SystemTime) -> (lines: Vec<String>)
    ensures
        layers@.len() == 0 ==> lines@.len() == 1 && lines@[0]@ == "(no layers found)"@,
        layers@.len() > 0 ==> {
            &&& lines@.len() == layers@.len() + 1
            &&& lines@[0]@ == table_header_text()
            &&& forall|i: int|
                0 <= i < layers@.len() ==> #[trigger] lines@[i + 1]@ == table_row_text(
                    layers@[i],
                    now,
                )
        },
{
    let mut lines: Vec<String> = Vec::new();
    if layers.len() == 0 {
        lines.push("(no layers found)".to_owned());
        return lines;
    }
    let mut header = pad_left("SIZE", 10);
    header.append("  ");
    let c2 = pad_left("ORPHAN", 7);
    header.append(c2.as_str());
    header.append("  ");
    let c3 = pad_left("AGE", 10);
    header.append(c3.as_str());
    header.append("  ID");
    lines.push(header);
    let n = layers.len();
    for i in 0..n
        invariant
            n == layers@.len(),
            lines@.len() == i + 1,
            lines@[0]@ == table_header_text(),
            forall|k: int| 0 <= k < i ==> #[trigger] lines@[k + 1]@ == table_row_text(layers@[k], now),
    {
        let row = table_row(&layers[i], now);
        lines.push(row);
    }
    lines
}

/// Totals over a set of layers.
#[derive(Debug, Clone, Copy, PartialEq, Eq, Structural)]
pub struct LayerStats {
    pub layer_count: usize,
    pub orphan_count: usize,
    pub total_bytes: u64,
    pub orphan_bytes: u64,
}

/// The total size of `layers`.
pub open spec fn total_size(layers: Seq<LayerInfo>) -> nat
    decreases layers.len(),
{
    if layers.len() == 0 {
        0
    } else {
        total_size(layers.drop_last()) + layers.last().size_bytes as nat
    }
}

/// The orphans among `layers`.
pub open spec fn orphans(layers: Seq<LayerInfo>) -> Seq<LayerInfo> {
    layers.filter(|l: LayerInfo| l.orphan)
}

/// The bytes held by orphans (what `info` reports as reclaimable) never
/// exceed the total size of the layers.
pub proof fn law_reclaimable_within_total(layers: Seq<LayerInfo>)
    ensures
        total_size(orphans(layers)) <= total_size(layers),
    decreases layers.len(),
{
    if layers.len() > 0 {
        let init = layers.drop_last();
        law_reclaimable_within_total(init);
        assert(layers =~= init.push(layers.last()));
        init.lemma_filter_push(layers.last(), |l: LayerInfo| l.orphan);
        if layers.last().orphan {
            assert(orphans(layers).drop_last() =~= orphans(init));
        } else {
            assert(orphans(layers) =~= orphans(init));
        }
    }
}

/// `st` holds the counts and totals of `layers` and their orphans.
pub open spec fn stats_of(st: LayerStats, layers: Seq<LayerInfo>) -> bool {
    &&& st.layer_count == layers.len()
    &&& st.orphan_count == orphans(layers).len()
    &&& st.total_bytes == total_size(layers)
    &&& st.orphan_bytes == total_size(orphans(layers))
}

/// The stats of no layers.
pub(crate) fn no_stats() -> (st: LayerStats)
    ensures
        stats_of(st, Seq::empty()),
{
    proof {
        assert(orphans(Seq::<LayerInfo>::empty()) =~= Seq::<LayerInfo>::empty());
    }
    LayerStats { layer_count: 0, orphan_count: 0, total_bytes: 0, orphan_bytes: 0 }
}

/// The stats of `seen` followed by `l`, from the stats `st` of `seen`;
/// `None` when the total size no longer fits in a `u64`.
pub(crate) fn add_to_stats(st: LayerStats, l: &LayerInfo, Ghost(seen): Ghost<Seq<LayerInfo>>) -> (r:
    Option<LayerStats>)
    requires
        stats_of(st, seen),
        seen.len() < usize::MAX,
    ensures
        r is Some <==> total_size(seen.push(*l)) <= u64::MAX,
        r matches Some(s) ==> stats_of(s, seen.push(*l)),
{
    let ghost pred = |x: LayerInfo| x.orphan;
    let ghost next = seen.push(*l);
    proof {
        assert(next.drop_last() =~= seen);
        seen.lemma_filter_push(*l, pred);
        law_reclaimable_within_total(next);
        seen.lemma_filter_len(pred);
    }
    let total = match st.total_bytes.checked_add(l.size_bytes) {
        Some(t) => t,
        None => {
            return None;
        },
    };
    if l.orphan {
        proof {
            assert(orphans(next).drop_last() =~= orphans(seen));
        }
        Some(
            LayerStats {
                layer_count: st.layer_count + 1,
                orphan_count: st.orphan_count + 1,
                total_bytes: total,
                orphan_bytes: st.orphan_bytes + l.size_bytes,
            },
        )
    } else {
        proof {
            assert(orphans(next) =~= orphans(seen));
        }
        Some(
            LayerStats {
                layer_count: st.layer_count + 1,
                orphan_count: st.orphan_count,
                total_bytes: total,
                orphan_bytes: st.orphan_bytes,
            },
        )
    }
}

/// Count and total the layers and their orphans; `None` when the total size
/// does not fit in a `u64`.
pub fn layer_stats(layers: &[LayerInfo]) -> (r: Option<LayerStats>)
    ensures
        r is Some <==> total_size(layers@) <= u64::MAX,
        r matches Some(st) ==> stats_of(st, layers@),
{
    let n = layers.len();
    let mut st = no_stats();
    proof {
        assert(layers@.take(0) =~= Seq::<LayerInfo>::empty());
    }
    for i in 0..n
        invariant
            n == layers@.len(),
            stats_of(st, layers@.take(i as int)),
    {
        proof {
            assert(layers@.take(i + 1) =~= layers@.take(i as int).push(layers@[i as int]));
        }
        match add_to_stats(st, &layers[i], Ghost(layers@.take(i as int))) {
            Some(next) => {
                st = next;
            },
            None => {
                proof {
                    lemma_total_size_prefix(layers@, i + 1);
                }
                return None;
            },
        }
    }
    proof {
        assert(layers@.take(n as int) =~= layers@);
    }
    Some(st)
}

/// The total size of a prefix never exceeds that of the whole.
pub(crate) proof fn lemma_total_size_prefix(layers: Seq<LayerInfo>, k: int)
    requires
        0 <= k <= layers.len(),
    ensures
        total_size(layers.take(k)) <= total_size(layers),
    decreases layers.len() - k,
{
    if k < layers.len() {
        lemma_total_size_prefix(layers, k + 1);
        assert(layers.take(k + 1).drop_last() =~= layers.take(k));
    } else {
        assert(layers.take(k) =~= layers);
    }
}

/// The lines `info` prints for the layers directory `dir`.
pub fn info_lines(dir: &str, stats: &LayerStats) -> (lines: Vec<String>)
    ensures
        lines@.len() == 5,
        lines@[0]@ == "Layers directory: "@ + dir@,
        lines@[1]@ == "Total layers:     "@ + decimal_digits(stats.layer_count as nat),
        lines@[2]@ == "Orphan layers:    "@ + decimal_digits(stats.orphan_count as nat),
        lines@[3]@ == "Total size:       "@ + bytesize_text(stats.total_bytes),
        lines@[4]@ == "Reclaimable:      "@ + bytesize_text(stats.orphan_bytes),
{
    let mut lines: Vec<String> = Vec::new();
    let mut l0 = "Layers directory: ".to_owned();
    l0.append(dir);
    lines.push(l0);
    let mut l1 = "Total layers:     ".to_owned();
    let c1 = decimal(stats.layer_count as u64);
    l1.append(c1.as_str());
    lines.push(l1);
    let mut l2 = "Orphan layers:    ".to_owned();
    let c2 = decimal(stats.orphan_count as u64);
    l2.append(c2.as_str());
    lines.push(l2);
    let mut l3 = "Total size:       ".to_owned();
    let b3 = bytes(stats.total_bytes);
    l3.append(b3.as_str());
    lines.push(l3);
    let mut l4 = "Reclaimable:      ".to_owned();
    let b4 = bytes(stats.orphan_bytes);
    l4.append(b4.as_str());
    lines.push(l4);
    lines
}

/// The next thing `clean` does, once its targets are chosen.
#[derive(Debug, Clone, Copy, PartialEq, Eq, Structural)]
pub enum CleanAction {
    /// There is nothing to destroy: say so and stop.
    ReportNothing,
    /// `--dry-run` was given: say so and stop.
    ReportDryRun,
    /// Find out whether the process is elevated.
    CheckElevation,
    /// The process is not elevated: fail with `NotElevated`.
    RefuseNotElevated,
    /// Ask the user to confirm.
    AskConfirmation,
    /// The user declined: say so and stop.
    ReportAborted,
    /// Enable the privileges and destroy the targets.
    Destroy,
}

/// The decision `clean` takes for `n_targets` targets given the flags and
/// what it has found out so far (`None`: not asked yet): nothing to do, a dry
/// run, then elevation is required, then confirmation unless `--yes`.
pub open spec fn clean_action_spec(
    n_targets: nat,
    dry_run: bool,
    yes: bool,
    elevated: Option<bool>,
    confirmed: Option<bool>,
) -> CleanAction {
    if n_targets == 0 {
        CleanAction::ReportNothing
    } else if dry_run {
        CleanAction::ReportDryRun
    } else if elevated is None {
        CleanAction::CheckElevation
    } else if elevated == Some(false) {
        CleanAction::RefuseNotElevated
    } else if yes {
        CleanAction::Destroy
    } else if confirmed is None {
        CleanAction::AskConfirmation
    } else if confirmed == Some(false) {
        CleanAction::ReportAborted
    } else {
        CleanAction::Destroy
    }
}

/// The next thing `clean` does.
pub fn clean_next(
    n_targets: usize,
    dry_run: bool,
    yes: bool,
    elevated: Option<bool>,
    confirmed: Option<bool>,
) -> (a: CleanAction)
    ensures
        a == clean_action_spec(n_targets as nat, dry_run, yes, elevated, confirmed),
{
    if n_targets == 0 {
        CleanAction::ReportNothing
    } else if dry_run {
        CleanAction::ReportDryRun
    } else {
        match elevated {
            None => CleanAction::CheckElevation,
            Some(false) => CleanAction::RefuseNotElevated,
            Some(true) => {
                if yes {
                    CleanAction::Destroy
                } else {
                    match confirmed {
                        None => CleanAction::AskConfirmation,
                        Some(false) => CleanAction::ReportAborted,
                        Some(true) => CleanAction::Destroy,
                    }
                }
            },
        }
    }
}

/// What a `clean` run has destroyed so far.
#[derive(Debug)]
pub struct CleanTally {
    /// Layers destroyed.
    pub destroyed: usize,
    /// Bytes reclaimed by them (saturating).
    pub bytes_freed: u64,
    /// Layers whose destruction failed, with the HRESULT.
    pub failed: Vec<(String, u32)>,
}

impl CleanTally {
    /// Nothing destroyed yet.
    pub fn new() -> (t: CleanTally)
        ensures
            t.destroyed == 0,
            t.bytes_freed == 0,
            t.failed@.len() == 0,
    {
        CleanTally { destroyed: 0, bytes_freed: 0, failed: Vec::new() }
    }

    /// Account for one attempt to destroy a layer of `size` bytes. A success
    /// counts it and its bytes; a failure of `HcsDestroyLayer` is noted and
    /// the run goes on; any other error ends the run and is handed back.
    pub fn record(&mut self, size: u64, outcome: Result<(), DcmFreeError>) -> (r: Result<
        (),
        DcmFreeError,
    >)
        requires
            old(self).destroyed < usize::MAX,
        ensures
            match outcome {
                Ok(()) => {
                    &&& r is Ok
                    &&& final(self).destroyed == old(self).destroyed + 1
                    &&& final(self).bytes_freed == if old(self).bytes_freed + size > u64::MAX {
                        u64::MAX as int
                    } else {
                        old(self).bytes_freed + size
                    }
                    &&& final(self).failed@ == old(self).failed@
                },
                Err(DcmFreeError::HcsDestroyFailed { path, hresult }) => {
                    &&& r is Ok
                    &&& final(self).destroyed == old(self).destroyed
                    &&& final(self).bytes_freed == old(self).bytes_freed
                    &&& final(self).failed@ == old(self).failed@.push((path, hresult))
                },
                Err(e) => {
                    &&& r == Err::<(), DcmFreeError>(e)
                    &&& final(self).destroyed == old(self).destroyed
                    &&& final(self).bytes_freed == old(self).bytes_freed
                    &&& final(self).failed@ == old(self).failed@
                },
            },
    {
        match outcome {
            Ok(()) => {
                self.destroyed = self.destroyed + 1;
                self.bytes_freed = self.bytes_freed.saturating_add(size);
                Ok(())
            },
            Err(DcmFreeError::HcsDestroyFailed { path, hresult }) => {
                self.failed.push((path, hresult));
                Ok(())
            },
            Err(e) => Err(e),
        }
    }
}

/// The line `clean` prints when no layer is old enough to destroy.
pub fn nothing_to_destroy_line(min_age: &Duration) -> (line: String)
    ensures
        line@ == "No orphan layers older than "@ + duration_debug_text(min_age@) + " to destroy."@,
{
    let mut line = "No orphan layers older than ".to_owned();
    let d = min_age.debug_text();
    line.append(d.as_str());
    line.append(" to destroy.");
    line
}

/// The layers a sequence of references points at.
pub open spec fn targets_of(targets: Seq<&LayerInfo>) -> Seq<LayerInfo> {
    targets.map_values(|x: &LayerInfo| *x)
}

/// The plan line for one target: size, id and age.
pub open spec fn plan_row_text(l: LayerInfo, now: SystemTime) -> Seq<char> {
    "  "@ + bytesize_text(l.size_bytes) + "  "@ + l.id@ + "  age "@ + layer_age_text(l, now)
}

/// The lines announcing what `clean` will destroy: a header with the number
/// of targets and their total size, then one line per target. `None` when
/// the total size does not fit in a `u64`.
pub fn plan_lines(targets: &Vec<&LayerInfo>, now: SystemTime) -> (r: Option<Vec<String>>)
    ensures
        r is Some <==> total_size(targets_of(targets@)) <= u64::MAX,
        r matches Some(lines) ==> {
            &&& lines@.len() == targets@.len() + 1
            &&& lines@[0]@ == "Will destroy "@ + decimal_digits(targets@.len()) + " layers ("@
                + bytesize_text(total_size(targets_of(targets@)) as u64) + "):"@
            &&& forall|i: int|
                0 <= i < targets@.len() ==> #[trigger] lines@[i + 1]@ == plan_row_text(
                    *targets@[i],
                    now,
                )
        },
{
    let n = targets.len();
    let mut total: u64 = 0;
    let ghost ts = targets_of(targets@);
    for i in 0..n
        invariant
            n == targets@.len(),
            ts == targets_of(targets@),
            total == total_size(ts.take(i as int)),
    {
        proof {
            assert(ts.take(i + 1).drop_last() =~= ts.take(i as int));
        }
        match total.checked_add(targets[i].size_bytes) {
            Some(t) => {
                total = t;
            },
            None => {
                proof {
                    lemma_total_size_prefix(ts, i + 1);
                }
                return None;
            },
        }
    }
    proof {
        assert(ts.take(n as int) =~= ts);
    }
    let mut lines: Vec<String> = Vec::new();
    let mut header = "Will destroy ".to_owned();
    let count = decimal(n as u64);
    header.append(count.as_str());
    header.append(" layers (");
    let size = bytes(total);
    header.append(size.as_str());
    header.append("):");
    lines.push(header);
    for i in 0..n
        invariant
            n == targets@.len(),
            lines@.len() == i + 1,
            lines@[0]@ == "Will destroy "@ + decimal_digits(n as nat) + " layers ("@ + bytesize_text(
                total,
            ) + "):"@,
            forall|k: int|
                0 <= k < i ==> #[trigger] lines@[k + 1]@ == plan_row_text(*targets@[k], now),
    {
        let l = targets[i];
        let mut row = "  ".to_owned();
        let size = bytes(l.size_bytes);
        row.append(size.as_str());
        row.append("  ");
        row.append(l.id.as_str());
        row.append("  age ");
        let a = age(l.age(now));
        row.append(a.as_str());
        lines.push(row);
    }
    Some(lines)
}

/// The line reporting how a run ended: layers destroyed out of `n_targets`
/// and the bytes reclaimed.
pub open spec fn summary_text(destroyed: nat, n_targets: nat, bytes_freed: u64) -> Seq<char> {
    "\nDestroyed "@ + decimal_digits(destroyed) + "/"@ + decimal_digits(n_targets)
        + " layers, reclaimed approximately "@ + bytesize_text(bytes_freed) + "."@
}

/// The line for one failed destruction: the HRESULT and the path.
pub open spec fn failure_row_text(path: Seq<char>, hresult: u32) -> Seq<char> {
    "  0x"@ + hex_digits(hresult as nat, 8) + "  "@ + path
}

/// The lines `clean` prints after a run over `n_targets` targets: the
/// summary, then, if anything failed, a heading and one line per failure.
pub fn summary_lines(tally: &CleanTally, n_targets: usize) -> (lines: Vec<String>)
    ensures
        lines@[0]@ == summary_text(tally.destroyed as nat, n_targets as nat, tally.bytes_freed),
        tally.failed@.len() == 0 ==> lines@.len() == 1,
        tally.failed@.len() > 0 ==> {
            &&& lines@.len() == tally.failed@.len() + 2
            &&& lines@[1]@ == "\nFailures:"@
            &&& forall|i: int|
                0 <= i < tally.failed@.len() ==> #[trigger] lines@[i + 2]@ == failure_row_text(
                    tally.failed@[i].0@,
                    tally.failed@[i].1,
                )
        },
{
    let mut lines: Vec<String> = Vec::new();
    let mut head = "\nDestroyed ".to_owned();
    let ok = decimal(tally.destroyed as u64);
    head.append(ok.as_str());
    head.append("/");
    let total = decimal(n_targets as u64);
    head.append(total.as_str());
    head.append(" layers, reclaimed approximately ");
    let freed = bytes(tally.bytes_freed);
    head.append(freed.as_str());
    head.append(".");
    lines.push(head);
    let m = tally.failed.len();
    if m == 0 {
        return lines;
    }
    lines.push("\nFailures:".to_owned());
    for i in 0..m
        invariant
            m == tally.failed@.len(),
            lines@.len() == i + 2,
            lines@[0]@ == summary_text(tally.destroyed as nat, n_targets as nat, tally.bytes_freed),
            lines@[1]@ == "\nFailures:"@,
            forall|k: int|
                0 <= k < i ==> #[trigger] lines@[k + 2]@ == failure_row_text(
                    tally.failed@[k].0@,
                    tally.failed@[k].1,
                ),
    {
        let (path, hr) = &tally.failed[i];
        let mut row = "  0x".to_owned();
        let h = hex_fixed(*hr, 8);
        row.append(h.as_str());
        row.append("  ");
        row.append(path.as_str());
        lines.push(row);
    }
    lines
}

/// `clean` destroys only with consent: it reaches `Destroy` only when there
/// are targets, `--dry-run` is off, the process is known to be elevated, and
/// either `--yes` was given or the user confirmed. A dry run never destroys,
/// and an unelevated process is refused before anything is asked.
pub proof fn law_destroy_only_with_consent(
    n_targets: nat,
    dry_run: bool,
    yes: bool,
    elevated: Option<bool>,
    confirmed: Option<bool>,
)
    ensures
        clean_action_spec(n_targets, dry_run, yes, elevated, confirmed) == CleanAction::Destroy
            ==> {
            &&& n_targets > 0
            &&& !dry_run
            &&& elevated == Some(true)
            &&& (yes || confirmed == Some(true))
        },
        n_targets > 0 && !dry_run && elevated == Some(false) ==> clean_action_spec(
            n_targets,
            dry_run,
            yes,
            elevated,
            confirmed,
        ) == CleanAction::RefuseNotElevated,
{
}

} // verus!
