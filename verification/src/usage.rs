//! Plan quota: the managed account's usage windows, as the daemon's
//! `GET /api/v1/oauth/usage` reports them.
use vstd::prelude::*;

use crate::json::{json_views, no_members, number_view, Json, JsonView};
use crate::rc::or_empty;
use crate::text::{find_str, has_str, occurrences_are_found, owned, same};
use crate::version::opt_view;

verus! {

broadcast use vstd::string::group_string_axioms;

/// Quota TTL: the status page may ask often, it is fetched at most this often.
pub const FETCH_TTL_SECS: u64 = 600;

/// What `str::to_lowercase` makes of a text.
pub uninterp spec fn lowercased(s: Seq<char>) -> Seq<char>;

/// `str::to_lowercase`: the text with every letter in lower case.
#[verifier::external_body]
fn lowercase(s: &str) -> (r: String)
    ensures
        r@ == lowercased(s@),
{
    s.to_lowercase()
}

/// One usage window row: `summary` or an entry of `limits[]`. What was used and
/// what the limit is come as the numbers' texts.
pub struct UsageRow {
    pub weekly: bool,
    pub hourly: bool,
    pub used: Option<String>,
    pub limit: Option<String>,
    pub reset_at: String,
}

/// What a row says.
#[verifier::ext_equal]
pub struct RowView {
    pub weekly: bool,
    pub hourly: bool,
    pub used: Option<Seq<char>>,
    pub limit: Option<Seq<char>>,
    pub reset_at: Seq<char>,
}

impl UsageRow {
    pub open spec fn view(self) -> RowView {
        RowView {
            weekly: self.weekly,
            hourly: self.hourly,
            used: crate::web::opt_text(self.used),
            limit: crate::web::opt_text(self.limit),
            reset_at: self.reset_at@,
        }
    }
}

/// The views of a list of rows.
pub open spec fn row_views(v: Seq<UsageRow>) -> Seq<RowView> {
    v.map_values(|r: UsageRow| r@)
}

/// The row's name, in lower case, holds `part`.
pub open spec fn name_has(row: JsonView, part: Seq<char>) -> bool {
    match row.text_at("name"@) {
        Some(n) => find_str(lowercased(n), part) >= 0,
        None => false,
    }
}

/// The row is of the weekly window.
pub open spec fn is_weekly(row: JsonView) -> bool {
    row.nested("window"@).text_at("unit"@) == Some("week"@) || name_has(row, "week"@)
}

/// The row is of the window of five hours.
pub open spec fn is_hourly(row: JsonView) -> bool {
    (row.nested("window"@).u64_at("duration"@) == Some(5u64) && row.nested("window"@).text_at(
        "unit"@,
    ) == Some("hour"@)) || name_has(row, "5h"@)
}

/// What a document says as a row.
pub open spec fn row_of(row: JsonView) -> RowView {
    RowView {
        weekly: is_weekly(row),
        hourly: is_hourly(row),
        used: row.number_at("used"@),
        limit: row.number_at("limit"@),
        reset_at: or_empty(row.text_at("reset_at"@)),
    }
}

fn has_name(row: &Json, part: &str) -> (r: bool)
    ensures
        r == name_has(row@, part@),
{
    match row.text_at("name") {
        Some(n) => has_str(lowercase(n).as_str(), part),
        None => false,
    }
}

fn unit_is(row: &Json, unit: &str) -> (r: bool)
    ensures
        r == (row@.nested("window"@).text_at("unit"@) == Some(unit@)),
{
    match row.member("window") {
        Some(w) => match w.text_at("unit") {
            Some(u) => same(u, unit),
            None => false,
        },
        None => false,
    }
}

fn duration_of(row: &Json) -> (r: Option<u64>)
    ensures
        r == row@.nested("window"@).u64_at("duration"@),
{
    match row.member("window") {
        Some(w) => w.u64_at("duration"),
        None => None,
    }
}

/// Whether a row is of the weekly window.
pub fn row_is_weekly(row: &Json) -> (r: bool)
    ensures
        r == is_weekly(row@),
{
    unit_is(row, "week") || has_name(row, "week")
}

/// Whether a row is of the window of five hours.
pub fn row_is_hourly(row: &Json) -> (r: bool)
    ensures
        r == is_hourly(row@),
{
    let five = match duration_of(row) {
        Some(d) => d == 5,
        None => false,
    };
    (five && unit_is(row, "hour")) || has_name(row, "5h")
}

fn opt_owned(s: Option<&str>) -> (r: Option<String>)
    ensures
        crate::web::opt_text(r) == opt_view(s),
{
    match s {
        Some(s) => Some(owned(s)),
        None => None,
    }
}

fn read_row(row: &Json) -> (r: UsageRow)
    ensures
        r@ == row_of(row@),
{
    let reset_at = match row.text_at("reset_at") {
        Some(t) => owned(t),
        None => String::new(),
    };
    UsageRow {
        weekly: row_is_weekly(row),
        hourly: row_is_hourly(row),
        used: opt_owned(row.number_at("used")),
        limit: opt_owned(row.number_at("limit")),
        reset_at,
    }
}

/// The documents that hold a usage row: the summary, where there is one, then
/// the limits.
pub open spec fn row_docs(data: JsonView) -> Seq<JsonView> {
    let summary = match data.member("summary"@) {
        Some(JsonView::Object(m)) => seq![JsonView::Object(m)],
        _ => seq![],
    };
    match data.array_at("limits"@) {
        Some(limits) => summary + limits,
        None => summary,
    }
}

/// The usage rows of an answer.
pub open spec fn rows_of(data: JsonView) -> Seq<RowView> {
    row_docs(data).map_values(|d: JsonView| row_of(d))
}

/// The daemon's answer is an error; this is how it is reported.
pub open spec fn usage_error(data: JsonView) -> Option<Seq<char>> {
    if data.text_at("kind"@) == Some("error"@) {
        Some(
            "额度接口返回错误："@ + match data.text_at("message"@) {
                Some(m) => m,
                None => "未知错误"@,
            },
        )
    } else {
        None
    }
}

/// Reads the usage rows of the `/oauth/usage` data object. The weekly row may
/// live in `summary` or in `limits[]` depending on account shape.
pub fn usage_rows(data: &Json) -> (r: Result<Vec<UsageRow>, String>)
    ensures
        match r {
            Ok(rows) => usage_error(data@) is None && row_views(rows@) == rows_of(data@),
            Err(e) => usage_error(data@) == Some(e@),
        },
{
    let failed = match data.text_at("kind") {
        Some(k) => same(k, "error"),
        None => false,
    };
    if failed {
        let mut e = owned("额度接口返回错误：");
        match data.text_at("message") {
            Some(m) => e.append(m),
            None => e.append("未知错误"),
        }
        return Err(e);
    }
    let mut out: Vec<UsageRow> = Vec::new();
    let ghost mut docs: Seq<JsonView> = seq![];
    match data.member("summary") {
        Some(d) => if d.is_object() {
            out.push(read_row(d));
            proof {
                docs = seq![d@];
            }
        },
        None => {},
    }
    proof {
        assert(row_views(out@) == docs.map_values(|d: JsonView| row_of(d)));
    }
    match data.array_at("limits") {
        Some(limits) => {
            let mut i: usize = 0;
            let ghost lv = json_views(limits@);
            proof {
                assert(docs + lv.take(0) == docs);
            }
            while i < limits.len()
                invariant
                    lv == json_views(limits@),
                    i <= limits@.len(),
                    row_views(out@) == (docs + lv.take(i as int)).map_values(
                        |d: JsonView| row_of(d),
                    ),
                decreases limits@.len() - i,
            {
                let ghost before = out@;
                let row = read_row(&limits[i]);
                out.push(row);
                proof {
                    assert(row_views(out@) == row_views(before).push(row@));
                    assert(lv[i as int] == limits@[i as int]@);
                    assert((docs + lv.take(i + 1)).map_values(|d: JsonView| row_of(d)) == (docs
                        + lv.take(i as int)).map_values(|d: JsonView| row_of(d)).push(
                        row_of(lv[i as int]),
                    ));
                }
                i = i + 1;
            }
            proof {
                assert(lv.take(i as int) == lv);
            }
        },
        None => {},
    }
    Ok(out)
}

/// Plan quota from `/api/v1/oauth/usage`.
#[derive(Debug)]
pub struct PlanUsage {
    /// Daemon this reading came from (cache key).
    pub base: String,
    pub weekly_pct: u32,
    pub weekly_reset_at: String,
    pub hourly_pct: u32,
    pub hourly_reset_at: String,
    pub fetched_at: u64,
}

/// What a quota reading says.
#[verifier::ext_equal]
pub struct UsageView {
    pub base: Seq<char>,
    pub weekly_pct: u32,
    pub weekly_reset_at: Seq<char>,
    pub hourly_pct: u32,
    pub hourly_reset_at: Seq<char>,
    pub fetched_at: u64,
}

impl PlanUsage {
    pub open spec fn view(self) -> UsageView {
        UsageView {
            base: self.base@,
            weekly_pct: self.weekly_pct,
            weekly_reset_at: self.weekly_reset_at@,
            hourly_pct: self.hourly_pct,
            hourly_reset_at: self.hourly_reset_at@,
            fetched_at: self.fetched_at,
        }
    }
}

/// What the page is told of a reading. Which daemon it came from is a detail of
/// the cache and never sent.
pub open spec fn usage_page(u: UsageView) -> JsonView {
    no_members().with("weekly_pct"@, number_view(u.weekly_pct as u64)).with(
        "weekly_reset_at"@,
        JsonView::Text(u.weekly_reset_at),
    ).with("hourly_pct"@, number_view(u.hourly_pct as u64)).with(
        "hourly_reset_at"@,
        JsonView::Text(u.hourly_reset_at),
    ).with("fetched_at"@, number_view(u.fetched_at))
}

/// What the page is told: the reading, or that it is loading.
pub fn usage_doc(shown: Option<&PlanUsage>) -> (r: Json)
    ensures
        r@ == match shown {
            Some(u) => usage_page(u@),
            None => no_members().with("loading"@, JsonView::Bool(true)),
        },
{
    match shown {
        Some(u) => Json::object().with("weekly_pct", Json::number(u.weekly_pct as u64)).with(
            "weekly_reset_at",
            Json::text(u.weekly_reset_at.as_str()),
        ).with("hourly_pct", Json::number(u.hourly_pct as u64)).with(
            "hourly_reset_at",
            Json::text(u.hourly_reset_at.as_str()),
        ).with("fetched_at", Json::number(u.fetched_at)),
        None => Json::object().with("loading", Json::Bool(true)),
    }
}

/// The page is not told which daemon a reading came from.
pub proof fn page_is_not_told_the_daemon(u: UsageView)
    ensures
        usage_page(u).member("base"@) is None,
        forall|b: Seq<char>| usage_page(UsageView { base: b, ..u }) == usage_page(u),
{
    reveal_strlit("base");
    reveal_strlit("weekly_pct");
    reveal_strlit("weekly_reset_at");
    reveal_strlit("hourly_pct");
    reveal_strlit("hourly_reset_at");
    reveal_strlit("fetched_at");
    assert("base"@.len() == 4);
    assert("weekly_pct"@.len() == 10);
    assert("weekly_reset_at"@.len() == 15);
    assert("hourly_pct"@.len() == 10);
    assert("hourly_reset_at"@.len() == 15);
    assert("fetched_at"@.len() == 10);
}

/// The first row from `i` on that is of the wanted window and has a percentage;
/// the number of rows where there is none.
pub open spec fn first_row(rows: Seq<RowView>, pcts: Seq<Option<u32>>, weekly: bool, i: int) -> int
    decreases rows.len() - i,
{
    if i >= rows.len() || i < 0 {
        rows.len() as int
    } else if (if weekly {
        rows[i].weekly
    } else {
        rows[i].hourly
    }) && pcts[i] is Some {
        i
    } else {
        first_row(rows, pcts, weekly, i + 1)
    }
}

/// The quota that usage rows give, each with its percentage where it has one.
pub open spec fn plan_of(
    base: Seq<char>,
    rows: Seq<RowView>,
    pcts: Seq<Option<u32>>,
    now: u64,
) -> Option<UsageView> {
    let w = first_row(rows, pcts, true, 0);
    let h = first_row(rows, pcts, false, 0);
    if w < rows.len() && h < rows.len() {
        Some(
            UsageView {
                base,
                weekly_pct: pcts[w]->0,
                weekly_reset_at: rows[w].reset_at,
                hourly_pct: pcts[h]->0,
                hourly_reset_at: rows[h].reset_at,
                fetched_at: now,
            },
        )
    } else {
        None
    }
}

fn pick_row(rows: &Vec<UsageRow>, pcts: &Vec<Option<u32>>, weekly: bool) -> (r: Option<(usize, u32)>)
    requires
        pcts@.len() == rows@.len(),
    ensures
        match r {
            Some((i, pct)) => i == first_row(row_views(rows@), pcts@, weekly, 0) && i < rows@.len()
                && pcts@[i as int] == Some(pct),
            None => first_row(row_views(rows@), pcts@, weekly, 0) == rows@.len(),
        },
{
    let mut i: usize = 0;
    let ghost rv = row_views(rows@);
    while i < rows.len()
        invariant
            rv == row_views(rows@),
            pcts@.len() == rows@.len(),
            i <= rows@.len(),
            first_row(rv, pcts@, weekly, 0) == first_row(rv, pcts@, weekly, i as int),
        decreases rows@.len() - i,
    {
        proof {
            assert(rv[i as int] == rows@[i as int]@);
        }
        let wanted = if weekly {
            rows[i].weekly
        } else {
            rows[i].hourly
        };
        if wanted {
            match pcts[i] {
                Some(pct) => {
                    return Some((i, pct));
                },
                None => {},
            }
        }
        i = i + 1;
    }
    None
}

/// Puts a quota reading together from usage rows and their percentages.
pub fn extract_plan_usage(base: &str, rows: &Vec<UsageRow>, pcts: &Vec<Option<u32>>, now: u64) -> (r: Result<
    PlanUsage,
    String,
>)
    requires
        pcts@.len() == rows@.len(),
    ensures
        match r {
            Ok(u) => plan_of(base@, row_views(rows@), pcts@, now) == Some(u@),
            Err(e) => plan_of(base@, row_views(rows@), pcts@, now) is None && e@
                == "额度响应缺少每周或 5 小时窗口行（接口结构可能已变化）"@,
        },
{
    match (pick_row(rows, pcts, true), pick_row(rows, pcts, false)) {
        (Some((w, weekly_pct)), Some((h, hourly_pct))) => Ok(
            PlanUsage {
                base: owned(base),
                weekly_pct,
                weekly_reset_at: rows[w].reset_at.clone(),
                hourly_pct,
                hourly_reset_at: rows[h].reset_at.clone(),
                fetched_at: now,
            },
        ),
        _ => Err(owned("额度响应缺少每周或 5 小时窗口行（接口结构可能已变化）")),
    }
}

/// The cached reading is to be fetched anew: there is none, it is of another
/// daemon, or it is older than the TTL.
pub open spec fn usage_stale(cache: Option<UsageView>, base: Seq<char>, now: u64) -> bool {
    match cache {
        Some(u) => u.base != base || u.fetched_at + FETCH_TTL_SECS < now,
        None => true,
    }
}

/// The cached reading is what the page is shown: it is of this daemon.
pub open spec fn usage_shown(cache: Option<UsageView>, base: Seq<char>) -> bool {
    match cache {
        Some(u) => u.base == base,
        None => false,
    }
}

/// The view of a cached reading.
pub open spec fn cache_view(cache: Option<&PlanUsage>) -> Option<UsageView> {
    match cache {
        Some(u) => Some(u@),
        None => None,
    }
}

/// What the page's question for the plan quota comes to.
pub struct UsageAnswer {
    /// Fetch it in the background.
    pub fetch: bool,
    /// Show the cached reading; else it is loading.
    pub show: bool,
}

/// The status page asks for plan quota: the cache is returned, and refreshed in
/// the background when stale, unless a fetch runs already. Quota is per-account,
/// so the cache is keyed by the daemon that it came from: switching tabs does not
/// show the previous connection's numbers.
pub fn plan_usage(cache: Option<&PlanUsage>, base: Option<&str>, fetching: bool, now: u64) -> (r:
    UsageAnswer)
    ensures
        match base {
            Some(b) => r.fetch == (usage_stale(cache_view(cache), b@, now) && !fetching) && r.show
                == usage_shown(cache_view(cache), b@),
            None => !r.fetch && !r.show,
        },
{
    match base {
        Some(b) => match cache {
            Some(u) => {
                let ours = same(u.base.as_str(), b);
                let expired = now > FETCH_TTL_SECS && now - FETCH_TTL_SECS > u.fetched_at;
                UsageAnswer { fetch: (!ours || expired) && !fetching, show: ours }
            },
            None => UsageAnswer { fetch: !fetching, show: false },
        },
        None => UsageAnswer { fetch: false, show: false },
    }
}

proof fn lemma_first_row(rows: Seq<RowView>, pcts: Seq<Option<u32>>, weekly: bool, i: int)
    requires
        0 <= i <= rows.len(),
    ensures
        i <= first_row(rows, pcts, weekly, i) <= rows.len(),
        first_row(rows, pcts, weekly, i) < rows.len() ==> pcts[first_row(rows, pcts, weekly, i)]
            is Some && (if weekly {
            rows[first_row(rows, pcts, weekly, i)].weekly
        } else {
            rows[first_row(rows, pcts, weekly, i)].hourly
        }),
        forall|k: int|
            i <= k < first_row(rows, pcts, weekly, i) ==> !((if weekly {
                (#[trigger] rows[k]).weekly
            } else {
                rows[k].hourly
            }) && pcts[k] is Some),
    decreases rows.len() - i,
{
    if i < rows.len() {
        lemma_first_row(rows, pcts, weekly, i + 1);
    }
}

/// A reading is given exactly where some row is of the weekly window and some
/// row is of the window of five hours, both with a percentage; it records the
/// daemon that it came from.
pub proof fn reading_needs_both_windows(
    base: Seq<char>,
    rows: Seq<RowView>,
    pcts: Seq<Option<u32>>,
    now: u64,
)
    ensures
        plan_of(base, rows, pcts, now) is Some <==> (exists|i: int|
            0 <= i < rows.len() && (#[trigger] rows[i]).weekly && pcts[i] is Some) && (exists|i: int|
            0 <= i < rows.len() && (#[trigger] rows[i]).hourly && pcts[i] is Some),
        plan_of(base, rows, pcts, now) matches Some(u) ==> u.base == base && u.fetched_at == now,
{
    lemma_first_row(rows, pcts, true, 0);
    lemma_first_row(rows, pcts, false, 0);
    let w = first_row(rows, pcts, true, 0);
    let h = first_row(rows, pcts, false, 0);
    if exists|i: int| 0 <= i < rows.len() && (#[trigger] rows[i]).weekly && pcts[i] is Some {
        let i = choose|i: int|
            0 <= i < rows.len() && (#[trigger] rows[i]).weekly && pcts[i] is Some;
        assert(w <= i);
    }
    if exists|i: int| 0 <= i < rows.len() && (#[trigger] rows[i]).hourly && pcts[i] is Some {
        let i = choose|i: int|
            0 <= i < rows.len() && (#[trigger] rows[i]).hourly && pcts[i] is Some;
        assert(h <= i);
    }
    if w < rows.len() {
        assert(rows[w].weekly);
    }
    if h < rows.len() {
        assert(rows[h].hourly);
    }
}

/// A fresh reading is shown for the daemon that it came from and is not fetched
/// again before the TTL is over; for every other daemon it is fetched and not
/// shown.
pub proof fn reading_serves_its_own_daemon(u: UsageView, base: Seq<char>, now: u64)
    ensures
        usage_shown(Some(u), base) <==> u.base == base,
        u.base == base && now <= u.fetched_at + FETCH_TTL_SECS ==> !usage_stale(
            Some(u),
            base,
            now,
        ),
        u.base != base ==> usage_stale(Some(u), base, now),
{
}

/// The name of a row, in lower case, holds a word.
pub open spec fn is_named(row: JsonView, word: Seq<char>) -> bool {
    match row.member("name"@) {
        Some(JsonView::Text(n)) => exists|i: int|
            0 <= i <= lowercased(n).len() - word.len() && #[trigger] lowercased(n).subrange(
                i,
                i + word.len(),
            ) == word,
        _ => false,
    }
}

/// The window of a row is counted in `unit`.
pub open spec fn counts_in(row: JsonView, unit: Seq<char>) -> bool {
    row.member("window"@) matches Some(w) && w.member("unit"@) == Some(JsonView::Text(unit))
}

/// A row is weekly by its window's unit or its name, and of five hours by its
/// window's unit and length together, or its name.
pub proof fn windows_go_by_unit_or_name(row: JsonView)
    ensures
        is_weekly(row) <==> counts_in(row, "week"@) || is_named(row, "week"@),
        is_hourly(row) <==> (counts_in(row, "hour"@) && (row.member("window"@) matches Some(w)
            && w.u64_at("duration"@) == Some(5u64))) || is_named(row, "5h"@),
{
    if let Some(n) = row.text_at("name"@) {
        occurrences_are_found(lowercased(n), "week"@);
        occurrences_are_found(lowercased(n), "5h"@);
    }
}

/// A row keeps what was used, what the limit is and when it resets as the document
/// has them.
pub proof fn rows_keep_their_numbers(row: JsonView)
    ensures
        match row.member("used"@) {
            Some(JsonView::Number(_, s)) => row_of(row).used == Some(s),
            _ => row_of(row).used is None,
        },
        match row.member("limit"@) {
            Some(JsonView::Number(_, s)) => row_of(row).limit == Some(s),
            _ => row_of(row).limit is None,
        },
        match row.member("reset_at"@) {
            Some(JsonView::Text(s)) => row_of(row).reset_at == s,
            _ => row_of(row).reset_at.len() == 0,
        },
        row_of(row).weekly == is_weekly(row),
        row_of(row).hourly == is_hourly(row),
{
}

/// The rows of an answer are its summary, where that is an object, and then its
/// limits, in their order.
pub proof fn rows_are_summary_and_limits(data: JsonView, limits: Seq<JsonView>, i: int)
    requires
        data.member("limits"@) == Some(JsonView::Array(limits)),
        0 <= i < limits.len(),
    ensures
        match data.member("summary"@) {
            Some(JsonView::Object(m)) => rows_of(data).len() == limits.len() + 1 && rows_of(data)[0]
                == row_of(JsonView::Object(m)) && rows_of(data)[i + 1] == row_of(limits[i]),
            _ => rows_of(data).len() == limits.len() && rows_of(data)[i] == row_of(limits[i]),
        },
{
}

/// Without limits the summary is the only row, where there is one.
pub proof fn summary_alone_is_a_row(data: JsonView)
    requires
        !(data.member("limits"@) matches Some(JsonView::Array(_))),
    ensures
        match data.member("summary"@) {
            Some(JsonView::Object(m)) => rows_of(data).len() == 1 && rows_of(data)[0] == row_of(
                JsonView::Object(m),
            ),
            _ => rows_of(data).len() == 0,
        },
{
}

/// An answer of the kind "error", and no other, is reported as one, with its
/// message where it has one.
pub proof fn errors_are_reported(data: JsonView)
    ensures
        data.member("kind"@) == Some(JsonView::Text("error"@)) ==> usage_error(data) == Some(
            match data.member("message"@) {
                Some(JsonView::Text(m)) => "额度接口返回错误："@ + m,
                _ => "额度接口返回错误："@ + "未知错误"@,
            },
        ),
        data.member("kind"@) != Some(JsonView::Text("error"@)) ==> usage_error(data) is None,
{
}

/// A reading takes each window from the first row of it that has a percentage: the
/// percentage and the reset of that row, the weekly one for the week and that of
/// five hours for the hours.
pub proof fn readings_take_the_first_rows(
    base: Seq<char>,
    rows: Seq<RowView>,
    pcts: Seq<Option<u32>>,
    now: u64,
    w: int,
    h: int,
)
    requires
        0 <= w < rows.len(),
        0 <= h < rows.len(),
        rows[w].weekly && pcts[w] is Some,
        rows[h].hourly && pcts[h] is Some,
        forall|k: int| 0 <= k < w ==> !((#[trigger] rows[k]).weekly && pcts[k] is Some),
        forall|k: int| 0 <= k < h ==> !((#[trigger] rows[k]).hourly && pcts[k] is Some),
    ensures
        match plan_of(base, rows, pcts, now) {
            Some(u) => {
                &&& Some(u.weekly_pct) == pcts[w]
                &&& u.weekly_reset_at == rows[w].reset_at
                &&& Some(u.hourly_pct) == pcts[h]
                &&& u.hourly_reset_at == rows[h].reset_at
                &&& u.base == base
                &&& u.fetched_at == now
            },
            None => false,
        },
{
    lemma_first_row(rows, pcts, true, 0);
    lemma_first_row(rows, pcts, false, 0);
    let x = first_row(rows, pcts, true, 0);
    let y = first_row(rows, pcts, false, 0);
    if x < w {
        assert(!(rows[x].weekly && pcts[x] is Some));
    }
    if y < h {
        assert(!(rows[y].hourly && pcts[y] is Some));
    }
    assert(x == w && y == h);
}

/// The page is told the reading exactly, each part under its own name.
pub proof fn page_is_told_the_reading(u: UsageView)
    ensures
        usage_page(u).u64_at("weekly_pct"@) == Some(u.weekly_pct as u64),
        usage_page(u).member("weekly_reset_at"@) == Some(JsonView::Text(u.weekly_reset_at)),
        usage_page(u).u64_at("hourly_pct"@) == Some(u.hourly_pct as u64),
        usage_page(u).member("hourly_reset_at"@) == Some(JsonView::Text(u.hourly_reset_at)),
        usage_page(u).u64_at("fetched_at"@) == Some(u.fetched_at),
{
    reveal_strlit("weekly_pct");
    reveal_strlit("weekly_reset_at");
    reveal_strlit("hourly_pct");
    reveal_strlit("hourly_reset_at");
    reveal_strlit("fetched_at");
    assert("weekly_pct"@.len() == 10);
    assert("weekly_reset_at"@.len() == 15);
    assert("hourly_pct"@.len() == 10);
    assert("hourly_reset_at"@.len() == 15);
    assert("fetched_at"@.len() == 10);
    assert("weekly_pct"@[0] != "hourly_pct"@[0]);
    assert("weekly_pct"@[0] != "fetched_at"@[0]);
    assert("weekly_reset_at"@[0] != "hourly_reset_at"@[0]);
    assert("hourly_pct"@[0] != "fetched_at"@[0]);
}

/// A reading is fetched again once it is older than ten minutes, and not before.
pub proof fn readings_last_ten_minutes(u: UsageView, now: u64)
    ensures
        usage_stale(Some(u), u.base, now) <==> now > u.fetched_at + 600,
        usage_stale(None, u.base, now),
        !usage_shown(None, u.base),
{
}

} // verus!
