use vstd::prelude::*;
use vstd::string::*;
use crate::date::{Date, day_num, date_of, max_day_num, lemma_day_num_le_max, add_days, span_days};
use crate::text::{line_seq, line_string, newline_free, newline_count, lemma_newline_free_count_zero, lemma_newline_count_concat, lemma_line_seq_newline_free};

verus! {

/// Why a plan could not be rendered.
#[derive(Clone, Copy, PartialEq, Eq, Structural, Debug)]
pub enum PlanError {
    /// The end page lies before the start page.
    InvalidPageRange,
    /// The end date lies before the start date.
    InvalidDateRange,
}

/// The inclusive day count of a date range.
pub open spec fn span_len(start: Date, end: Date) -> int {
    day_num(end) - day_num(start) + 1
}

/// The page quota of a day: the page difference spread over the days,
/// rounded up.
pub open spec fn quota(diff: nat, days: nat) -> nat
    recommends
        days >= 1,
{
    (((diff + days - 1) as int) / (days as int)) as nat
}

/// The first page read on day `i`.
pub open spec fn first_page(sp: nat, ppd: nat, i: nat) -> nat {
    sp + ppd * i
}

/// The last page read on day `i`: the end of the day's quota, clamped to the
/// end page.
pub open spec fn last_page(sp: nat, ep: nat, ppd: nat, i: nat) -> int {
    vstd::math::min(ep as int, sp + ppd * (i + 1) - 1)
}

/// The text of line `i` of a plan: the date `i` days past `base`, then the
/// day's page sub-range.
pub open spec fn line_at(sp: nat, ep: nat, ppd: nat, base: int, i: int) -> Seq<char> {
    line_seq(
        date_of(base + i),
        first_page(sp, ppd, i as nat),
        last_page(sp, ep, ppd, i as nat) as nat,
    )
}

/// All lines of a plan, one per day of the date range.
pub open spec fn plan_lines(sp: nat, ep: nat, start: Date, days: nat) -> Seq<Seq<char>>
    recommends
        sp <= ep,
        days >= 1,
{
    Seq::new(days, |i: int| line_at(sp, ep, quota((ep - sp) as nat, days), day_num(start), i))
}

/// Lines joined with a newline between each two, and no trailing newline.
pub open spec fn join_lines(ls: Seq<Seq<char>>) -> Seq<char>
    decreases ls.len(),
{
    if ls.len() == 0 {
        Seq::empty()
    } else if ls.len() == 1 {
        ls[0]
    } else {
        ls[0] + "\n"@ + join_lines(ls.drop_first())
    }
}

/// The complete plan text for the given pages and dates.
pub open spec fn plan_text(sp: nat, ep: nat, start: Date, end: Date) -> Seq<char>
    recommends
        sp <= ep,
        day_num(start) <= day_num(end),
{
    join_lines(plan_lines(sp, ep, start, span_len(start, end) as nat))
}

/// What `render_plan` returns: an error for an inverted page or date range,
/// else the plan text.
pub open spec fn render_plan_spec(sp: nat, ep: nat, start: Date, end: Date) -> Result<
    Seq<char>,
    PlanError,
> {
    if ep < sp {
        Err(PlanError::InvalidPageRange)
    } else if day_num(end) < day_num(start) {
        Err(PlanError::InvalidDateRange)
    } else {
        Ok(plan_text(sp, ep, start, end))
    }
}

/// Joining one more line appends a newline and that line.
proof fn lemma_join_push(ls: Seq<Seq<char>>, l: Seq<char>)
    requires
        ls.len() >= 1,
    ensures
        join_lines(ls.push(l)) == join_lines(ls) + "\n"@ + l,
    decreases ls.len(),
{
    let p = ls.push(l);
    if ls.len() == 1 {
        assert(p.drop_first() =~= seq![l]);
        assert(join_lines(p.drop_first()) == l);
        assert(join_lines(p) == ls[0] + "\n"@ + l);
    } else {
        lemma_join_push(ls.drop_first(), l);
        assert(p.drop_first() =~= ls.drop_first().push(l));
        assert(join_lines(p) == ls[0] + "\n"@ + (join_lines(ls.drop_first()) + "\n"@ + l));
        assert(ls[0] + "\n"@ + (join_lines(ls.drop_first()) + "\n"@ + l) =~= (ls[0] + "\n"@
            + join_lines(ls.drop_first())) + "\n"@ + l);
    }
}

/// The dates of a plan: one per day, in chronological order, beginning at
/// `start`. The date at index `i` lies exactly `i` days past `start`: its
/// day number is `day_num(start) + i`, so along the result each date is one
/// day past the one before it.
pub fn plan_dates(start: &Date, days: u64) -> (r: Vec<Date>)
    requires
        start.wf(),
        1 <= days,
        day_num(*start) + days - 1 <= max_day_num(),
    ensures
        r.len() == days,
        forall|i: int| 0 <= i < days ==> r[i] == date_of(day_num(*start) + i),
        forall|i: int| 0 <= i < days ==> (#[trigger] r[i]).wf() && day_num(r[i]) == day_num(*start)
            + i,
{
    let mut v: Vec<Date> = Vec::new();
    let mut i: u64 = 0;
    while i < days
        invariant
            start.wf(),
            1 <= days,
            i <= days,
            day_num(*start) + days - 1 <= max_day_num(),
            v.len() == i,
            forall|j: int| 0 <= j < i ==> v[j] == date_of(day_num(*start) + j),
            forall|j: int| 0 <= j < i ==> (#[trigger] v[j]).wf() && day_num(v[j]) == day_num(
                *start,
            ) + j,
        decreases days - i,
    {
        let d = add_days(start, i);
        v.push(d);
        i = i + 1;
    }
    v
}

/// Renders the reading plan: one line per day from `start` to `end`, each
/// holding the day's date and the page sub-range read that day. Lines are
/// separated by single newlines, with no trailing newline.
///
/// An inverted page range or date range is reported as an error; for every
/// other input the result is exactly the text that `render_plan_spec` gives.
///
/// A plan from page 0 to page 0 is not renderable: a day there gets a quota
/// of zero pages, and its page range would have to end below page zero.
#[verifier::rlimit(50)]
pub fn render_plan(start_page: u32, end_page: u32, start: &Date, end: &Date) -> (r: Result<
    String,
    PlanError,
>)
    requires
        start.wf(),
        end.wf(),
        !(start_page == 0 && end_page == 0),
    ensures
        match r {
            Ok(s) => render_plan_spec(start_page as nat, end_page as nat, *start, *end)
                == Ok::<Seq<char>, PlanError>(s@),
            Err(e) => render_plan_spec(start_page as nat, end_page as nat, *start, *end) == Err::<
                Seq<char>,
                PlanError,
            >(e),
        },
{
    if end_page < start_page {
        return Err(PlanError::InvalidPageRange);
    }
    let span = span_days(start, end);
    if span < 0 {
        return Err(PlanError::InvalidDateRange);
    }
    proof {
        lemma_day_num_le_max(*start);
        lemma_day_num_le_max(*end);
    }
    let days: u64 = (span as u64) + 1;
    let dates = plan_dates(start, days);
    let spage: u64 = start_page as u64;
    let epage: u64 = end_page as u64;
    let diff: u64 = epage - spage;
    let ppd: u64 = (diff + days - 1) / days;
    proof {
        vstd::arithmetic::div_mod::lemma_fundamental_div_mod((diff + days - 1) as int, days as int);
        vstd::arithmetic::div_mod::lemma_mod_bound((diff + days - 1) as int, days as int);
        assert(ppd == quota(diff as nat, days as nat));
        assert(ppd * days <= diff + days - 1);
        assert(diff <= ppd * days);
    }
    let ghost lines = plan_lines(spage as nat, epage as nat, *start, days as nat);
    let mut out = String::new();
    let mut i: u64 = 0;
    while i < days
        invariant
            1 <= days <= max_day_num() + 1,
            i <= days,
            spage <= epage <= u32::MAX,
            !(spage == 0 && epage == 0),
            diff == epage - spage,
            ppd == quota(diff as nat, days as nat),
            ppd * days <= diff + days - 1,
            diff <= ppd * days,
            dates.len() == days,
            forall|j: int| 0 <= j < days ==> dates[j] == date_of(day_num(*start) + j),
            forall|j: int| 0 <= j < days ==> (#[trigger] dates[j]).wf(),
            lines == plan_lines(spage as nat, epage as nat, *start, days as nat),
            out@ == join_lines(lines.take(i as int)),
        decreases days - i,
    {
        proof {
            vstd::arithmetic::mul::lemma_mul_inequality(1, i as int + 1, ppd as int);
            vstd::arithmetic::mul::lemma_mul_inequality(i as int, days as int, ppd as int);
            vstd::arithmetic::mul::lemma_mul_inequality(i as int + 1, days as int, ppd as int);
            if ppd == 0 {
                assert(diff == 0);
                assert(spage >= 1);
            }
        }
        let d = dates[i as usize];
        let fp: u64 = spage + ppd * i;
        let t: u64 = spage + ppd * (i + 1);
        let lp: u64 = if epage < t - 1 {
            epage
        } else {
            t - 1
        };
        let line = line_string(&d, fp, lp);
        if i > 0 {
            out.append("\n");
        }
        out.append(line.as_str());
        proof {
            assert(fp as nat == first_page(spage as nat, ppd as nat, i as nat));
            assert(lp as int == last_page(spage as nat, epage as nat, ppd as nat, i as nat));
            assert(line@ == line_at(spage as nat, epage as nat, ppd as nat, day_num(*start), i as int));
            assert(lines[i as int] == line@);
            if i == 0 {
                assert(lines.take(1) =~= seq![lines[0]]);
                assert(out@ == join_lines(lines.take(1)));
            } else {
                lemma_join_push(lines.take(i as int), lines[i as int]);
                assert(lines.take(i as int + 1) =~= lines.take(i as int).push(lines[i as int]));
            }
        }
        i = i + 1;
    }
    proof {
        assert(lines.take(days as int) =~= lines);
    }
    Ok(out)
}

/// Joined lines hold exactly one newline between each two of them.
proof fn lemma_join_lines_newline_count(ls: Seq<Seq<char>>)
    requires
        ls.len() >= 1,
        forall|i: int| 0 <= i < ls.len() ==> newline_free(#[trigger] ls[i]),
    ensures
        newline_count(join_lines(ls)) == ls.len() - 1,
    decreases ls.len(),
{
    if ls.len() == 1 {
        lemma_newline_free_count_zero(ls[0]);
    } else {
        let rest = ls.drop_first();
        assert(forall|i: int| 0 <= i < rest.len() ==> newline_free(#[trigger] rest[i]));
        lemma_join_lines_newline_count(rest);
        lemma_newline_count_concat(ls[0] + "\n"@, join_lines(rest));
        lemma_newline_count_concat(ls[0], "\n"@);
        lemma_newline_free_count_zero(ls[0]);
        reveal_strlit("\n");
        assert(("\n"@).drop_first() =~= Seq::<char>::empty());
        assert(newline_count(Seq::<char>::empty()) == 0);
        assert(newline_count("\n"@) == 1);
    }
}

/// A plan has one line per day: it holds as many lines as the date range has
/// days, no line holds a newline, and the joined text holds exactly one
/// newline between each two lines — printed, it shows `days` lines.
pub proof fn lemma_plan_line_count(sp: nat, ep: nat, start: Date, days: nat)
    requires
        days >= 1,
    ensures
        plan_lines(sp, ep, start, days).len() == days,
        forall|i: int|
            0 <= i < days ==> newline_free(#[trigger] plan_lines(sp, ep, start, days)[i]),
        newline_count(join_lines(plan_lines(sp, ep, start, days))) == days - 1,
{
    let ls = plan_lines(sp, ep, start, days);
    assert forall|i: int| 0 <= i < days implies newline_free(#[trigger] ls[i]) by {
        let ppd = quota((ep - sp) as nat, days);
        lemma_line_seq_newline_free(
            date_of(day_num(start) + i),
            first_page(sp, ppd, i as nat),
            last_page(sp, ep, ppd, i as nat) as nat,
        );
    }
    lemma_join_lines_newline_count(ls);
}

/// The first line's page range begins at the start page.
pub proof fn lemma_first_line_starts_at_start_page(sp: nat, ep: nat, days: nat)
    requires
        days >= 1,
    ensures
        first_page(sp, quota((ep - sp) as nat, days), 0) == sp,
{
}

/// The last line's page range ends at the end page, whenever the page
/// difference is not an exact multiple of the day count. (When it is an
/// exact multiple, the quota already ends one page short of the end page on
/// the last day, and the clamp never raises a page number.)
pub proof fn lemma_last_line_ends_at_end_page(sp: nat, ep: nat, days: nat)
    requires
        days >= 1,
        sp <= ep,
        (ep - sp) % (days as int) != 0,
    ensures
        last_page(sp, ep, quota((ep - sp) as nat, days), (days - 1) as nat) == ep,
{
    let diff = ep - sp;
    let q = quota(diff as nat, days) as int;
    assert(q == (diff + days - 1) / (days as int));
    vstd::arithmetic::div_mod::lemma_fundamental_div_mod(diff + days - 1, days as int);
    vstd::arithmetic::div_mod::lemma_mod_bound(diff + days - 1, days as int);
    let r = (diff + days - 1) % (days as int);
    assert(diff + days - 1 == (days as int) * q + r);
    if q * days <= diff {
        assert(r >= days - 1);
        assert(r == days - 1);
        assert(diff == q * days);
        vstd::arithmetic::div_mod::lemma_mod_multiples_basic(q, days as int);
        assert(false);
    }
    assert(q * days >= diff + 1);
}

/// Consecutive lines are page-contiguous: a day's first page is one past the
/// previous day's last page. This holds for every pair of consecutive lines
/// whose second line is not the final, clamped one, provided the day quotas
/// do not exhaust the page range before the second-to-last day (when they
/// do, the clamp freezes the last pages of the remaining lines while their
/// first pages keep advancing).
pub proof fn lemma_consecutive_lines_contiguous(sp: nat, ep: nat, days: nat, i: nat)
    requires
        sp <= ep,
        days >= 3,
        i + 1 <= days - 2,
        quota((ep - sp) as nat, days) * (days - 2) <= ep - sp + 1,
    ensures
        first_page(sp, quota((ep - sp) as nat, days), (i + 1) as nat) == last_page(
            sp,
            ep,
            quota((ep - sp) as nat, days),
            i,
        ) + 1,
{
    let q = quota((ep - sp) as nat, days) as int;
    vstd::arithmetic::mul::lemma_mul_inequality(i + 1 as int, days as int - 2, q);
    assert((i + 1) * q <= (days - 2) * q);
    assert((days - 2) * q == q * (days - 2)) by (nonlinear_arith);
    assert((i + 1) * q == q * (i + 1)) by (nonlinear_arith);
    assert(q * (i + 1) <= ep - sp + 1);
}

/// Rendering is deterministic: any two results that `render_plan`'s contract
/// admits for the same inputs are the same.
pub proof fn lemma_render_plan_deterministic(
    sp: nat,
    ep: nat,
    start: Date,
    end: Date,
    r1: Result<Seq<char>, PlanError>,
    r2: Result<Seq<char>, PlanError>,
)
    requires
        r1 == render_plan_spec(sp, ep, start, end),
        r2 == render_plan_spec(sp, ep, start, end),
    ensures
        r1 == r2,
{
}

/// A date range of a single day yields a plan of exactly one line, whose
/// page range begins at the start page.
pub proof fn lemma_single_day_single_line(sp: nat, ep: nat, start: Date, end: Date)
    requires
        sp <= ep,
        day_num(start) == day_num(end),
    ensures
        plan_lines(sp, ep, start, span_len(start, end) as nat).len() == 1,
        plan_text(sp, ep, start, end) == line_at(
            sp,
            ep,
            quota((ep - sp) as nat, 1),
            day_num(start),
            0,
        ),
        first_page(sp, quota((ep - sp) as nat, 1), 0) == sp,
{
    let lines = plan_lines(sp, ep, start, 1);
    assert(join_lines(lines) == lines[0]);
}

} // verus!
