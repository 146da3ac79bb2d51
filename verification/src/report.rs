//! The HTML diagnostics report: issue cards, overview cards, bar charts and
//! the latest errors, assembled into one page.
use vstd::prelude::*;
use crate::config::{ConfigReport, ConfigView};
use crate::counter::{Counter, CountSeq};
use crate::sorting::{insert_by, sort_by, sorted_by, strict_order, lemma_sort_by};
use crate::diagnosis::{Issue, IssueView, Severity, issues_view};
use crate::logs::{LogReport, LogView};
use crate::text::{
    decimal, digit_char, lex_lt, lines, trim, starts_with, lex_lt_exec, replaced, no_straddle,
    lemma_replaced_concat, lemma_replaced_mismatch, lemma_replaced_self, lemma_no_straddle_left,
    lemma_no_straddle_right, lemma_no_straddle_quote, owned, push_char, push_decimal, split_lines,
    string_of, take_chars, to_chars, trim_chars,
};

verus! {

/// The style sheet of the report page.
pub const REPORT_CSS: &'static str = "\n/* ── Reset ─────────────────────────────────── */\n*, *::before, *::after { margin: 0; padding: 0; box-sizing: border-box; }\n\n/* ── Hide scrollbar, keep scroll ───────────── */\nhtml { overflow-y: scroll; scrollbar-width: none; }\nhtml::-webkit-scrollbar { display: none; }\n\n/* ── Base ──────────────────────────────────── */\nbody {\n  font-family: -apple-system, BlinkMacSystemFont, \"SF Pro Text\", \"Helvetica Neue\", Arial, sans-serif;\n  background: #000;\n  color: #fff;\n  line-height: 1.6;\n  -webkit-font-smoothing: antialiased;\n}\n\n.page { overflow: hidden; }\n\n.container {\n  max-width: 960px;\n  margin: 0 auto;\n  padding: 0 24px;\n}\n\n/* ── Typography ────────────────────────────── */\nh2 {\n  font-size: 26px;\n  font-weight: 500;\n  color: #fff;\n  margin-bottom: 32px;\n  line-height: 1.2;\n}\n\nh2.heading-dark { color: #181818; }\n\nh3 {\n  font-size: 13px;\n  font-weight: 600;\n  color: #8F8F8F;\n  text-transform: uppercase;\n  letter-spacing: 1px;\n  margin-bottom: 16px;\n}\n\nh3.h3-dark { color: #666; }\n\n.section-label {\n  font-size: 11px;\n  font-weight: 400;\n  color: #8F8F8F;\n  text-transform: uppercase;\n  letter-spacing: 1px;\n  margin-bottom: 8px;\n}\n\n/* ── Sections ──────────────────────────────── */\n.section-dark {\n  background: #000;\n  padding: 64px 0;\n}\n\n.section-light {\n  background: #fff;\n  padding: 64px 0;\n}\n\n.section-light .section-label { color: #969696; }\n\n/* ── Hero ──────────────────────────────────── */\n.hero {\n  background: #000;\n  padding: 80px 0 48px;\n  text-align: center;\n}\n\n.hero-inner { max-width: 960px; margin: 0 auto; padding: 0 24px; }\n\n.hero-badge {\n  display: inline-block;\n  font-size: 11px;\n  font-weight: 600;\n  letter-spacing: 2px;\n  color: #DA291C;\n  border: 1px solid #DA291C;\n  border-radius: 2px;\n  padding: 4px 16px;\n  margin-bottom: 24px;\n}\n\n.hero h1 {\n  font-size: 36px;\n  font-weight: 500;\n  color: #fff;\n  line-height: 1.15;\n  margin-bottom: 12px;\n}\n\n.hero-sub {\n  font-size: 13px;\n  color: #8F8F8F;\n  letter-spacing: 0.5px;\n}\n\n/* ── Stats Bar ─────────────────────────────── */\n.stats-bar {\n  background: #303030;\n  padding: 32px 0;\n  border-top: 1px solid #444;\n  border-bottom: 1px solid #444;\n}\n\n.stats-row {\n  display: flex;\n  justify-content: space-between;\n  text-align: center;\n}\n\n.stat-item { flex: 1; }\n\n.stat-value {\n  display: block;\n  font-size: 28px;\n  font-weight: 700;\n  color: #fff;\n  line-height: 1;\n  margin-bottom: 6px;\n  font-variant-numeric: tabular-nums;\n}\n\n.stat-value.accent-red { color: #DA291C; }\n.stat-value.accent-amber { color: #F6E500; }\n\n.stat-name {\n  font-size: 11px;\n  font-weight: 400;\n  color: #8F8F8F;\n  letter-spacing: 1px;\n  text-transform: uppercase;\n}\n\n/* ── Issues ─────────────────────────────────── */\n.issues-stack { display: flex; flex-direction: column; gap: 20px; }\n\n.issue {\n  background: #181818;\n  border-radius: 2px;\n  padding: 32px;\n  border-left: 3px solid #DA291C;\n}\n\n.issue-top {\n  display: flex;\n  align-items: center;\n  gap: 12px;\n  margin-bottom: 12px;\n}\n\n.issue-num {\n  font-size: 24px;\n  font-weight: 700;\n  color: #303030;\n}\n\n.badge {\n  display: inline-block;\n  font-size: 11px;\n  font-weight: 700;\n  letter-spacing: 1px;\n  padding: 3px 10px;\n  border-radius: 2px;\n}\n\n.badge-sm { font-size: 10px; padding: 2px 8px; }\n\n.badge-critical { background: #DA291C; color: #fff; }\n.badge-warning { background: #F6E500; color: #181818; }\n.badge-info { background: #4C98B9; color: #fff; }\n\n.issue-title {\n  font-size: 18px;\n  font-weight: 700;\n  color: #fff;\n  line-height: 1.3;\n  margin-bottom: 8px;\n}\n\n.issue-desc {\n  font-size: 14px;\n  color: #8F8F8F;\n  line-height: 1.7;\n  margin-bottom: 20px;\n}\n\n/* ── Action Box ────────────────────────────── */\n.action-box {\n  background: #000;\n  border: 1px solid #303030;\n  border-radius: 2px;\n  padding: 20px 24px;\n}\n\n.action-label {\n  font-size: 11px;\n  font-weight: 700;\n  color: #DA291C;\n  letter-spacing: 1px;\n  margin-bottom: 12px;\n}\n\n.action-steps { display: flex; flex-direction: column; gap: 6px; }\n\n.step {\n  font-size: 14px;\n  color: #D2D2D2;\n  line-height: 1.6;\n  padding-left: 8px;\n  border-left: 2px solid #303030;\n}\n\n/* ── Info Cards ─────────────────────────────── */\n.grid-3 {\n  display: grid;\n  grid-template-columns: repeat(3, 1fr);\n  gap: 16px;\n}\n\n.grid-2 {\n  display: grid;\n  grid-template-columns: repeat(2, 1fr);\n  gap: 16px;\n}\n\n.info-card {\n  background: #f7f7f7;\n  border-radius: 2px;\n  overflow: hidden;\n}\n\n.info-card.accent-border { border-top: 3px solid #DA291C; }\n\n.card-label {\n  font-size: 11px;\n  font-weight: 600;\n  letter-spacing: 1px;\n  color: #969696;\n  padding: 16px 20px 0;\n}\n\n.card-body { padding: 12px 20px 20px; }\n\n.kv {\n  display: flex;\n  justify-content: space-between;\n  padding: 6px 0;\n  border-bottom: 1px solid #e5e5e5;\n  font-size: 13px;\n}\n\n.kv:last-child { border-bottom: none; }\n\n.k { color: #8F8F8F; }\n.v { color: #181818; text-align: right; }\n.v.strong { font-weight: 700; color: #181818; }\n\n.dns-item {\n  font-family: \"SF Mono\", \"Fira Code\", ui-monospace, monospace;\n  font-size: 12px;\n  color: #666;\n  padding: 4px 0;\n  border-bottom: 1px solid #e5e5e5;\n}\n\n.dns-item:last-child { border-bottom: none; }\n\n/* ── Panels (dark bg) ──────────────────────── */\n.panel {\n  background: #181818;\n  border-radius: 2px;\n  padding: 24px;\n}\n\n.panel-light {\n  background: #f7f7f7;\n  border-radius: 2px;\n  padding: 24px;\n}\n\n.detail-table {\n  margin-top: 20px;\n  padding-top: 16px;\n  border-top: 1px solid #e5e5e5;\n}\n\n.detail-row {\n  display: flex;\n  justify-content: space-between;\n  padding: 5px 0;\n  font-size: 13px;\n}\n\n.detail-key { color: #8F8F8F; }\n.detail-val { color: #181818; text-align: right; }\n\n/* ── Bar Chart ─────────────────────────────── */\n.bar-chart { display: flex; flex-direction: column; gap: 8px; }\n\n.bar-row {\n  display: grid;\n  grid-template-columns: 150px 1fr 44px;\n  align-items: center;\n  gap: 10px;\n}\n\n.bar-label {\n  font-size: 12px;\n  color: #8F8F8F;\n  overflow: hidden;\n  text-overflow: ellipsis;\n  white-space: nowrap;\n}\n\n.bar-label.dark-label { color: #666; }\n\n.bar-track {\n  height: 18px;\n  background: #303030;\n  border-radius: 2px;\n  overflow: hidden;\n}\n\n.bar-track.light-track { background: #e0e0e0; }\n\n.bar-fill {\n  height: 100%;\n  border-radius: 2px;\n  min-width: 3px;\n}\n\n.bar-value {\n  font-size: 13px;\n  font-weight: 700;\n  color: #fff;\n  text-align: right;\n  font-variant-numeric: tabular-nums;\n}\n\n.bar-value.dark-label { color: #181818; }\n\n/* ── Minor Issues ──────────────────────────── */\n.minor-stack { display: flex; flex-direction: column; gap: 4px; }\n\n.minor-item {\n  background: #181818;\n  border-radius: 2px;\n  overflow: hidden;\n}\n\n.minor-item summary {\n  padding: 14px 20px;\n  cursor: pointer;\n  display: flex;\n  align-items: center;\n  gap: 10px;\n  font-size: 14px;\n  color: #D2D2D2;\n  list-style: none;\n}\n\n.minor-item summary::-webkit-details-marker { display: none; }\n.minor-item summary::before {\n  content: \"+\";\n  font-size: 16px;\n  font-weight: 700;\n  color: #666;\n  width: 18px;\n  text-align: center;\n  flex-shrink: 0;\n}\n.minor-item details[open] summary::before { content: \"−\"; }\n\n.minor-item summary:hover { background: #222; }\n\n.minor-title { flex: 1; }\n\n.minor-body {\n  padding: 0 20px 20px 48px;\n}\n\n.minor-body p {\n  font-size: 13px;\n  color: #8F8F8F;\n  line-height: 1.7;\n  margin-bottom: 16px;\n}\n\n/* ── Log Panel ─────────────────────────────── */\n.log-panel {\n  background: #181818;\n  border-radius: 2px;\n  overflow: hidden;\n}\n\n.log-header {\n  padding: 12px 20px;\n  font-size: 12px;\n  color: #8F8F8F;\n  letter-spacing: 0.5px;\n  border-bottom: 1px solid #303030;\n}\n\n.log-body {\n  max-height: 360px;\n  overflow-y: auto;\n  scrollbar-width: none;\n  padding: 12px 20px;\n}\n\n.log-body::-webkit-scrollbar { display: none; }\n\n.log-line {\n  font-family: \"SF Mono\", \"Fira Code\", ui-monospace, monospace;\n  font-size: 11px;\n  color: #8F8F8F;\n  padding: 3px 0;\n  border-bottom: 1px solid rgba(255,255,255,0.03);\n  word-break: break-all;\n  line-height: 1.5;\n}\n\n/* ── Footer ────────────────────────────────── */\nfooter {\n  background: #303030;\n  padding: 24px 0;\n  text-align: center;\n  font-size: 12px;\n  color: #8F8F8F;\n  letter-spacing: 0.5px;\n}\n\n/* ── Responsive ────────────────────────────── */\n@media (max-width: 768px) {\n  .hero h1 { font-size: 26px; }\n  .hero { padding: 48px 0 32px; }\n  .section-dark, .section-light { padding: 40px 0; }\n  h2 { font-size: 22px; margin-bottom: 24px; }\n  .grid-3 { grid-template-columns: 1fr; }\n  .grid-2 { grid-template-columns: 1fr; }\n  .stats-row { flex-wrap: wrap; gap: 16px; }\n  .stat-item { flex: 0 0 calc(33.33% - 12px); }\n  .stat-value { font-size: 22px; }\n  .issue { padding: 20px; }\n  .bar-row { grid-template-columns: 100px 1fr 36px; }\n  .action-box { padding: 16px; }\n}\n";

// ---------------------------------------------------------------------------
// Text helpers
// ---------------------------------------------------------------------------
/// The HTML form of one character: `&`, `<`, `>` and `"` become entities.
pub open spec fn escape_char(c: char) -> Seq<char> {
    if c == '&' {
        "&amp;"@
    } else if c == '<' {
        "&lt;"@
    } else if c == '>' {
        "&gt;"@
    } else if c == '"' {
        "&quot;"@
    } else {
        seq![c]
    }
}

/// `s` made safe for HTML text and attribute values.
pub open spec fn escaped(s: Seq<char>) -> Seq<char>
    decreases s.len(),
{
    if s.len() == 0 {
        Seq::empty()
    } else {
        escaped(s.drop_last()) + escape_char(s.last())
    }
}

/// `s` made safe for HTML text and attribute values.
pub fn html_escape(s: &str) -> (r: String)
    ensures
        r@ == escaped(s@),
{
    let cs = to_chars(s);
    let mut r = String::new();
    let mut i: usize = 0;
    assert(cs@.take(0) =~= Seq::<char>::empty());
    while i < cs.len()
        invariant
            i <= cs@.len(),
            r@ == escaped(cs@.take(i as int)),
        decreases cs@.len() - i,
    {
        let c = cs[i];
        assert(cs@.take(i + 1).drop_last() =~= cs@.take(i as int));
        if c == '&' {
            r.append("&amp;");
        } else if c == '<' {
            r.append("&lt;");
        } else if c == '>' {
            r.append("&gt;");
        } else if c == '"' {
            r.append("&quot;");
        } else {
            push_char(&mut r, c);
        }
        i = i + 1;
    }
    assert(cs@.take(cs@.len() as int) =~= cs@);
    r
}

/// `s` cut to `max` characters, the last one an ellipsis, when longer.
pub open spec fn truncated(s: Seq<char>, max: nat) -> Seq<char> {
    if s.len() <= max {
        s
    } else {
        s.take(max - 1) + "…"@
    }
}

/// `s` cut to `max` characters, the last one an ellipsis, when longer.
pub fn truncate_str(s: &str, max: usize) -> (r: String)
    requires
        max > 0 || s@.len() == 0,
    ensures
        r@ == truncated(s@, max as nat),
{
    let cs = to_chars(s);
    if cs.len() <= max {
        owned(s)
    } else {
        let mut r = take_chars(&cs, max - 1);
        r.append("…");
        r
    }
}

/// "启用" for on, "禁用" for off.
pub open spec fn on_off(b: bool) -> Seq<char> {
    if b {
        "启用"@
    } else {
        "禁用"@
    }
}

fn on_off_exec(b: bool) -> (r: &'static str)
    ensures
        r@ == on_off(b),
{
    if b {
        "启用"
    } else {
        "禁用"
    }
}

/// "是" for yes, "否" for no.
pub open spec fn yes_no(b: bool) -> Seq<char> {
    if b {
        "是"@
    } else {
        "否"@
    }
}

fn yes_no_exec(b: bool) -> (r: &'static str)
    ensures
        r@ == yes_no(b),
{
    if b {
        "是"
    } else {
        "否"
    }
}

// ---------------------------------------------------------------------------
// Issues
// ---------------------------------------------------------------------------
/// The CSS class of a severity badge.
pub open spec fn badge_class(s: Severity) -> Seq<char> {
    match s {
        Severity::Critical => "badge-critical"@,
        Severity::Warning => "badge-warning"@,
        Severity::Info => "badge-info"@,
    }
}

/// The text of a severity badge.
pub open spec fn badge_text(s: Severity) -> Seq<char> {
    match s {
        Severity::Critical => "CRITICAL"@,
        Severity::Warning => "WARNING"@,
        Severity::Info => "INFO"@,
    }
}

fn badge(s: Severity) -> (b: (&'static str, &'static str))
    ensures
        b.0@ == badge_class(s),
        b.1@ == badge_text(s),
{
    match s {
        Severity::Critical => ("badge-critical", "CRITICAL"),
        Severity::Warning => ("badge-warning", "WARNING"),
        Severity::Info => ("badge-info", "INFO"),
    }
}

/// One step of a solution: a line trimmed of whitespace, as a block; a
/// blank line gives nothing.
pub open spec fn step_html(line: Seq<char>) -> Seq<char> {
    let t = trim(line);
    if t.len() == 0 {
        Seq::empty()
    } else {
        "<div class=\"step\">"@ + escaped(t) + "</div>"@
    }
}

/// The steps of a solution, from its lines.
pub open spec fn steps_html(ls: Seq<Seq<char>>) -> Seq<char>
    decreases ls.len(),
{
    if ls.len() == 0 {
        Seq::empty()
    } else {
        steps_html(ls.drop_last()) + step_html(ls.last())
    }
}

fn render_steps(solution: &str) -> (r: String)
    ensures
        r@ == steps_html(lines(solution@)),
{
    let cs = to_chars(solution);
    let ls = split_lines(&cs);
    let ghost all = lines(solution@);
    let mut r = String::new();
    let mut i: usize = 0;
    assert(all.take(0) =~= Seq::<Seq<char>>::empty());
    while i < ls.len()
        invariant
            i <= ls@.len(),
            ls@.len() == all.len(),
            forall|k: int| 0 <= k < ls@.len() ==> #[trigger] ls@[k]@ == all[k],
            r@ == steps_html(all.take(i as int)),
        decreases ls@.len() - i,
    {
        assert(all.take(i + 1).drop_last() =~= all.take(i as int));
        let t = trim_chars(&ls[i]);
        if t.len() > 0 {
            r.append("<div class=\"step\">");
            let e = html_escape(string_of(&t).as_str());
            r.append(e.as_str());
            r.append("</div>");
        } else {
            assert(r@ + step_html(all[i as int]) =~= r@);
        }
        i = i + 1;
    }
    assert(all.take(all.len() as int) =~= all);
    r
}

/// The card of the `num`-th most serious issue.
pub open spec fn top_issue_html(num: nat, x: IssueView) -> Seq<char> {
    "<div class=\"issue\">\n  <div class=\"issue-top\">\n    <span class=\"issue-num\">#"@ + decimal(num) + "</span>\n    <span class=\"badge "@ + badge_class(x.severity) + "\">"@ + badge_text(x.severity) + "</span>\n  </div>\n  <h3 class=\"issue-title\">"@ + escaped(x.title) + "</h3>\n  <p class=\"issue-desc\">"@ + escaped(x.description) + "</p>\n  <div class=\"action-box\">\n    <div class=\"action-label\">ACTION REQUIRED</div>\n    <div class=\"action-steps\">\n      "@ + steps_html(lines(x.solution)) + "\n    </div>\n  </div>\n</div>"@
}

/// The cards of the most serious issues, numbered from 1.
pub open spec fn top_issues_html(s: Seq<IssueView>) -> Seq<char>
    decreases s.len(),
{
    if s.len() == 0 {
        Seq::empty()
    } else {
        top_issues_html(s.drop_last()) + top_issue_html(s.len(), s.last())
    }
}

fn top_issue_exec(num: usize, issue: &Issue) -> (h: String)
    ensures
        h@ == top_issue_html(num as nat, issue@),
{
    let b = badge(issue.severity);
    let title = html_escape(issue.title.as_str());
    let desc = html_escape(issue.description.as_str());
    let steps = render_steps(issue.solution.as_str());
    let mut h = owned("<div class=\"issue\">\n  <div class=\"issue-top\">\n    <span class=\"issue-num\">#");
    push_decimal(&mut h, num as u64);
    h.append("</span>\n    <span class=\"badge ");
    h.append(b.0);
    h.append("\">");
    h.append(b.1);
    h.append("</span>\n  </div>\n  <h3 class=\"issue-title\">");
    h.append(title.as_str());
    h.append("</h3>\n  <p class=\"issue-desc\">");
    h.append(desc.as_str());
    h.append("</p>\n  <div class=\"action-box\">\n    <div class=\"action-label\">ACTION REQUIRED</div>\n    <div class=\"action-steps\">\n      ");
    h.append(steps.as_str());
    h.append("\n    </div>\n  </div>\n</div>");
    h
}

/// The cards of the most serious issues, numbered from 1.
pub fn render_top_issues(issues: &[Issue]) -> (r: String)
    ensures
        r@ == top_issues_html(issues_view(issues@)),
{
    let ghost all = issues_view(issues@);
    let mut r = String::new();
    let mut i: usize = 0;
    assert(all.take(0) =~= Seq::<IssueView>::empty());
    while i < issues.len()
        invariant
            i <= issues@.len(),
            all == issues_view(issues@),
            r@ == top_issues_html(all.take(i as int)),
        decreases issues@.len() - i,
    {
        assert(all.take(i + 1).drop_last() =~= all.take(i as int));
        let card = top_issue_exec(i + 1, &issues[i]);
        r.append(card.as_str());
        i = i + 1;
    }
    assert(all.take(all.len() as int) =~= all);
    r
}

/// The folded entry of a less serious issue.
pub open spec fn minor_issue_html(x: IssueView) -> Seq<char> {
    "<div class=\"minor-item\">\n  <details>\n    <summary>\n      <span class=\"badge "@ + badge_class(x.severity) + " badge-sm\">"@ + badge_text(x.severity) + "</span>\n      <span class=\"minor-title\">"@ + escaped(x.title) + "</span>\n    </summary>\n    <div class=\"minor-body\">\n      <p>"@ + escaped(x.description) + "</p>\n      <div class=\"action-box\">\n        <div class=\"action-label\">SUGGESTION</div>\n        <div class=\"action-steps\">"@ + steps_html(lines(x.solution)) + "</div>\n      </div>\n    </div>\n  </details>\n</div>"@
}

/// The folded entries of the less serious issues.
pub open spec fn minor_items_html(s: Seq<IssueView>) -> Seq<char>
    decreases s.len(),
{
    if s.len() == 0 {
        Seq::empty()
    } else {
        minor_items_html(s.drop_last()) + minor_issue_html(s.last())
    }
}

/// The section of the less serious issues (nothing when there are none).
pub open spec fn minor_issues_html(s: Seq<IssueView>) -> Seq<char> {
    if s.len() == 0 {
        Seq::empty()
    } else {
        "<section class=\"section-dark\">\n  <div class=\"container\">\n    <div class=\"section-label\">OTHER ISSUES</div>\n    <h2>其他问题</h2>\n    <div class=\"minor-stack\">"@ + minor_items_html(s) + "</div>\n  </div>\n</section>"@
    }
}

fn minor_issue_exec(issue: &Issue) -> (h: String)
    ensures
        h@ == minor_issue_html(issue@),
{
    let b = badge(issue.severity);
    let title = html_escape(issue.title.as_str());
    let desc = html_escape(issue.description.as_str());
    let steps = render_steps(issue.solution.as_str());
    let mut h = owned("<div class=\"minor-item\">\n  <details>\n    <summary>\n      <span class=\"badge ");
    h.append(b.0);
    h.append(" badge-sm\">");
    h.append(b.1);
    h.append("</span>\n      <span class=\"minor-title\">");
    h.append(title.as_str());
    h.append("</span>\n    </summary>\n    <div class=\"minor-body\">\n      <p>");
    h.append(desc.as_str());
    h.append("</p>\n      <div class=\"action-box\">\n        <div class=\"action-label\">SUGGESTION</div>\n        <div class=\"action-steps\">");
    h.append(steps.as_str());
    h.append("</div>\n      </div>\n    </div>\n  </details>\n</div>");
    h
}

/// The section of the less serious issues (nothing when there are none).
pub fn render_minor_issues(issues: &[Issue]) -> (r: String)
    ensures
        r@ == minor_issues_html(issues_view(issues@)),
{
    if issues.len() == 0 {
        return String::new();
    }
    let ghost all = issues_view(issues@);
    let mut items = String::new();
    let mut i: usize = 0;
    assert(all.take(0) =~= Seq::<IssueView>::empty());
    while i < issues.len()
        invariant
            i <= issues@.len(),
            all == issues_view(issues@),
            items@ == minor_items_html(all.take(i as int)),
        decreases issues@.len() - i,
    {
        assert(all.take(i + 1).drop_last() =~= all.take(i as int));
        let entry = minor_issue_exec(&issues[i]);
        items.append(entry.as_str());
        i = i + 1;
    }
    assert(all.take(all.len() as int) =~= all);
    let ghost s = all;
    let mut h = owned("<section class=\"section-dark\">\n  <div class=\"container\">\n    <div class=\"section-label\">OTHER ISSUES</div>\n    <h2>其他问题</h2>\n    <div class=\"minor-stack\">");
    h.append(items.as_str());
    h.append("</div>\n  </div>\n</section>");
    h
}

// ---------------------------------------------------------------------------
// Overview cards
// ---------------------------------------------------------------------------
/// `o`, or "未知" when absent.
pub open spec fn text_or_unknown(o: Option<Seq<char>>) -> Seq<char> {
    match o {
        Some(t) => t,
        None => "未知"@,
    }
}

fn escaped_or_unknown(o: &Option<String>) -> (r: String)
    ensures
        r@ == escaped(text_or_unknown(o.deep_view())),
{
    match o {
        Some(t) => html_escape(t.as_str()),
        None => html_escape("未知"),
    }
}

/// The subscription card.
pub open spec fn subscription_card_html(c: ConfigView) -> Seq<char> {
    "<div class=\"info-card accent-border\">\n  <div class=\"card-label\">SUBSCRIPTION</div>\n  <div class=\"card-body\">\n    <div class=\"kv\"><span class=\"k\">机场</span><span class=\"v strong\">"@ + escaped(text_or_unknown(c.subscription_provider)) + "</span></div>\n    <div class=\"kv\"><span class=\"k\">流量</span><span class=\"v\">"@ + escaped(text_or_unknown(c.traffic_info)) + "</span></div>\n    <div class=\"kv\"><span class=\"k\">到期</span><span class=\"v\">"@ + escaped(text_or_unknown(c.expiry_info)) + "</span></div>\n    <div class=\"kv\"><span class=\"k\">模式</span><span class=\"v\">"@ + escaped(c.mode) + "</span></div>\n  </div>\n</div>"@
}

/// The subscription card.
pub fn render_subscription_card(config: &ConfigReport) -> (h: String)
    ensures
        h@ == subscription_card_html(config@),
{
    let provider = escaped_or_unknown(&config.subscription_provider);
    let traffic = escaped_or_unknown(&config.traffic_info);
    let expiry = escaped_or_unknown(&config.expiry_info);
    let mode = html_escape(config.mode.as_str());
    let mut h = owned("<div class=\"info-card accent-border\">\n  <div class=\"card-label\">SUBSCRIPTION</div>\n  <div class=\"card-body\">\n    <div class=\"kv\"><span class=\"k\">机场</span><span class=\"v strong\">");
    h.append(provider.as_str());
    h.append("</span></div>\n    <div class=\"kv\"><span class=\"k\">流量</span><span class=\"v\">");
    h.append(traffic.as_str());
    h.append("</span></div>\n    <div class=\"kv\"><span class=\"k\">到期</span><span class=\"v\">");
    h.append(expiry.as_str());
    h.append("</span></div>\n    <div class=\"kv\"><span class=\"k\">模式</span><span class=\"v\">");
    h.append(mode.as_str());
    h.append("</span></div>\n  </div>\n</div>");
    h
}

/// `x` inserted into `r` before the first entry whose key sorts after its key.
pub open spec fn insert_port(r: Seq<(Seq<char>, u16)>, x: (Seq<char>, u16)) -> Seq<(Seq<char>, u16)>
    decreases r.len(),
{
    if r.len() == 0 {
        seq![x]
    } else if lex_lt(x.0, r[0].0) {
        seq![x] + r
    } else {
        seq![r[0]] + insert_port(r.drop_first(), x)
    }
}

/// The port settings sorted by name.
pub open spec fn sort_ports(s: Seq<(Seq<char>, u16)>) -> Seq<(Seq<char>, u16)>
    decreases s.len(),
{
    if s.len() == 0 {
        s
    } else {
        insert_port(sort_ports(s.drop_last()), s.last())
    }
}

/// The row of one port setting.
pub open spec fn port_row_html(e: (Seq<char>, u16)) -> Seq<char> {
    "<div class=\"kv\"><span class=\"k\">"@ + e.0 + "</span><span class=\"v\">"@ + decimal(
        e.1 as nat,
    ) + "</span></div>"@
}

/// The rows of the port settings.
pub open spec fn port_rows_html(s: Seq<(Seq<char>, u16)>) -> Seq<char>
    decreases s.len(),
{
    if s.len() == 0 {
        Seq::empty()
    } else {
        port_rows_html(s.drop_last()) + port_row_html(s.last())
    }
}

fn sorted_ports(v: &Vec<(String, u16)>) -> (r: Vec<(String, u16)>)
    ensures
        r.deep_view() == sort_ports(v.deep_view()),
{
    let mut r: Vec<(String, u16)> = Vec::new();
    let mut i: usize = 0;
    let ghost all = v.deep_view();
    assert(all.take(0) =~= Seq::<(Seq<char>, u16)>::empty());
    assert(r.deep_view() =~= Seq::<(Seq<char>, u16)>::empty());
    while i < v.len()
        invariant
            i <= v@.len(),
            all == v.deep_view(),
            r.deep_view() == sort_ports(all.take(i as int)),
        decreases v@.len() - i,
    {
        let x = (v[i].0.clone(), v[i].1);
        let ghost xv = (x.0@, x.1);
        assert(xv == all[i as int]);
        let xc = to_chars(x.0.as_str());
        let ghost before = r.deep_view();
        let mut k: usize = 0;
        assert(before.skip(0) =~= before);
        assert(before.take(0) + insert_port(before.skip(0), xv) =~= insert_port(before, xv));
        while k < r.len() && !lex_lt_exec(&xc, &to_chars(r[k].0.as_str()))
            invariant
                k <= r@.len(),
                before == r.deep_view(),
                xc@ == xv.0,
                insert_port(before, xv) == before.take(k as int) + insert_port(before.skip(k as int), xv),
            decreases r@.len() - k,
        {
            assert(before.skip(k as int)[0] == before[k as int]);
            assert(before.skip(k as int).drop_first() =~= before.skip(k + 1));
            assert(before.take(k + 1) =~= before.take(k as int) + seq![before[k as int]]);
            k = k + 1;
        }
        proof {
            if k < r@.len() {
                assert(before.skip(k as int)[0] == before[k as int]);
                assert(insert_port(before.skip(k as int), xv) == seq![xv] + before.skip(k as int));
            } else {
                assert(before.skip(k as int) =~= Seq::<(Seq<char>, u16)>::empty());
            }
        }
        r.insert(k, x);
        assert(r.deep_view() =~= insert_port(before, xv));
        assert(all.take(i + 1).drop_last() =~= all.take(i as int));
        i = i + 1;
    }
    assert(all.take(all.len() as int) =~= all);
    r
}

/// The ports card.
pub open spec fn ports_card_html(c: ConfigView) -> Seq<char> {
    "<div class=\"info-card\">\n  <div class=\"card-label\">PORTS</div>\n  <div class=\"card-body\">\n    "@ + port_rows_html(sort_ports(c.ports)) + "\n    <div class=\"kv\"><span class=\"k\">IPv6</span><span class=\"v\">"@ + on_off(c.ipv6) + "</span></div>\n    <div class=\"kv\"><span class=\"k\">局域网</span><span class=\"v\">"@ + on_off(c.allow_lan) + "</span></div>\n  </div>\n</div>"@
}

/// The ports card.
pub fn render_ports_card(config: &ConfigReport) -> (h: String)
    ensures
        h@ == ports_card_html(config@),
{
    let ports = sorted_ports(&config.ports);
    let ghost ps = ports.deep_view();
    let mut rows = String::new();
    let mut i: usize = 0;
    assert(ps.take(0) =~= Seq::<(Seq<char>, u16)>::empty());
    while i < ports.len()
        invariant
            i <= ports@.len(),
            ps == ports.deep_view(),
            rows@ == port_rows_html(ps.take(i as int)),
        decreases ports@.len() - i,
    {
        assert(ps.take(i + 1).drop_last() =~= ps.take(i as int));
        rows.append("<div class=\"kv\"><span class=\"k\">");
        rows.append(ports[i].0.as_str());
        rows.append("</span><span class=\"v\">");
        push_decimal(&mut rows, ports[i].1 as u64);
        rows.append("</span></div>");
        i = i + 1;
    }
    assert(ps.take(ps.len() as int) =~= ps);
    let mut h = owned("<div class=\"info-card\">\n  <div class=\"card-label\">PORTS</div>\n  <div class=\"card-body\">\n    ");
    h.append(rows.as_str());
    h.append("\n    <div class=\"kv\"><span class=\"k\">IPv6</span><span class=\"v\">");
    h.append(on_off_exec(config.ipv6));
    h.append("</span></div>\n    <div class=\"kv\"><span class=\"k\">局域网</span><span class=\"v\">");
    h.append(on_off_exec(config.allow_lan));
    h.append("</span></div>\n  </div>\n</div>");
    h
}

/// The rows of the DNS servers.
pub open spec fn dns_items_html(s: Seq<Seq<char>>) -> Seq<char>
    decreases s.len(),
{
    if s.len() == 0 {
        Seq::empty()
    } else {
        dns_items_html(s.drop_last()) + "<div class=\"dns-item\">"@ + escaped(s.last()) + "</div>"@
    }
}

/// The DNS card.
pub open spec fn dns_card_html(c: ConfigView) -> Seq<char> {
    "<div class=\"info-card\">\n  <div class=\"card-label\">DNS</div>\n  <div class=\"card-body\">\n    "@ + dns_items_html(c.dns_servers) + "\n  </div>\n</div>"@
}

/// The DNS card.
pub fn render_dns_card(config: &ConfigReport) -> (h: String)
    ensures
        h@ == dns_card_html(config@),
{
    let ghost ds = config.dns_servers.deep_view();
    let mut items = String::new();
    let mut i: usize = 0;
    assert(ds.take(0) =~= Seq::<Seq<char>>::empty());
    while i < config.dns_servers.len()
        invariant
            i <= config.dns_servers@.len(),
            ds == config.dns_servers.deep_view(),
            items@ == dns_items_html(ds.take(i as int)),
        decreases config.dns_servers@.len() - i,
    {
        assert(ds.take(i + 1).drop_last() =~= ds.take(i as int));
        items.append("<div class=\"dns-item\">");
        let e = html_escape(config.dns_servers[i].as_str());
        items.append(e.as_str());
        items.append("</div>");
        i = i + 1;
    }
    assert(ds.take(ds.len() as int) =~= ds);
    let mut h = owned("<div class=\"info-card\">\n  <div class=\"card-label\">DNS</div>\n  <div class=\"card-body\">\n    ");
    h.append(items.as_str());
    h.append("\n  </div>\n</div>");
    h
}

// ---------------------------------------------------------------------------
// Bar charts and lists
// ---------------------------------------------------------------------------
/// `x` inserted into `r` before the first entry with a smaller count.
pub open spec fn insert_count(r: CountSeq, x: (Seq<char>, nat)) -> CountSeq
    decreases r.len(),
{
    if r.len() == 0 {
        seq![x]
    } else if x.1 > r[0].1 {
        seq![x] + r
    } else {
        seq![r[0]] + insert_count(r.drop_first(), x)
    }
}

/// The entries of `m` sorted by count, largest first; ties keep their order.
pub open spec fn sort_counts(m: CountSeq) -> CountSeq
    decreases m.len(),
{
    if m.len() == 0 {
        m
    } else {
        insert_count(sort_counts(m.drop_last()), m.last())
    }
}

/// The bars of a chart: the 10 entries with the largest counts.
pub open spec fn bar_items(m: CountSeq) -> CountSeq {
    let s = sort_counts(m);
    if s.len() > 10 {
        s.take(10)
    } else {
        s
    }
}

/// The (label, count) pairs of a list.
pub open spec fn count_pairs(v: Seq<(String, usize)>) -> CountSeq {
    Seq::new(v.len(), |i: int| (v[i].0@, v[i].1 as nat))
}

/// The bars of a chart: the 10 entries with the largest counts, largest first.
pub fn top_bars(m: &Counter) -> (r: Vec<(String, usize)>)
    ensures
        count_pairs(r@) == bar_items(m@),
{
    let mut r: Vec<(String, usize)> = Vec::new();
    let mut i: usize = 0;
    let ghost all = m@;
    assert(all.take(0) =~= Seq::<(Seq<char>, nat)>::empty());
    assert(count_pairs(r@) =~= Seq::<(Seq<char>, nat)>::empty());
    while i < m.len()
        invariant
            i <= all.len(),
            all == m@,
            count_pairs(r@) == sort_counts(all.take(i as int)),
        decreases all.len() - i,
    {
        let (key, n) = m.entry(i);
        let x = (key.clone(), n);
        let ghost xv = (x.0@, x.1 as nat);
        assert(xv == all[i as int]);
        let ghost before = count_pairs(r@);
        let mut k: usize = 0;
        assert(before.skip(0) =~= before);
        assert(before.take(0) + insert_count(before.skip(0), xv) =~= insert_count(before, xv));
        while k < r.len() && !(x.1 > r[k].1)
            invariant
                k <= r@.len(),
                before == count_pairs(r@),
                xv == (x.0@, x.1 as nat),
                insert_count(before, xv) == before.take(k as int) + insert_count(before.skip(k as int), xv),
            decreases r@.len() - k,
        {
            assert(before.skip(k as int)[0] == before[k as int]);
            assert(before.skip(k as int).drop_first() =~= before.skip(k + 1));
            assert(before.take(k + 1) =~= before.take(k as int) + seq![before[k as int]]);
            k = k + 1;
        }
        proof {
            if k < r@.len() {
                assert(before.skip(k as int)[0] == before[k as int]);
                assert(insert_count(before.skip(k as int), xv) == seq![xv] + before.skip(k as int));
            } else {
                assert(before.skip(k as int) =~= Seq::<(Seq<char>, nat)>::empty());
            }
        }
        r.insert(k, x);
        assert(count_pairs(r@) =~= insert_count(before, xv));
        assert(all.take(i + 1).drop_last() =~= all.take(i as int));
        i = i + 1;
    }
    assert(all.take(all.len() as int) =~= all);
    let ghost sorted = count_pairs(r@);
    r.truncate(10);
    assert(count_pairs(r@) =~= bar_items(all));
    r
}

/// The count that fills a whole bar: the largest count, at least 1.
pub open spec fn bar_scale_of(items: CountSeq) -> nat {
    if items.len() > 0 && items[0].1 >= 1 {
        items[0].1
    } else {
        1
    }
}

/// The count that fills a whole bar: the first (largest) count, at least 1.
pub fn bar_scale(items: &Vec<(String, usize)>) -> (r: usize)
    ensures
        r == bar_scale_of(count_pairs(items@)),
{
    if items.len() > 0 && items[0].1 >= 1 {
        items[0].1
    } else {
        1
    }
}

/// The CSS classes of a bar's label, track and value: plain on a dark
/// background, with "dark-label" and "light-track" added for a light one.
pub open spec fn bar_classes(dark: bool) -> (Seq<char>, Seq<char>, Seq<char>) {
    if dark {
        ("bar-label dark-label"@, "bar-track light-track"@, "bar-value dark-label"@)
    } else {
        ("bar-label"@, "bar-track"@, "bar-value"@)
    }
}

/// One bar with the given classes of its label, track and value: the label
/// (shortened to 22 characters), a bar filled to `pct` percent in `color`,
/// and the count.
pub open spec fn styled_bar_row(
    label: Seq<char>,
    count: nat,
    pct: u32,
    color: Seq<char>,
    classes: (Seq<char>, Seq<char>, Seq<char>),
) -> Seq<char> {
    "<div class=\"bar-row\">\n  <span "@ + class_attr(classes.0) + " title=\""@ + escaped(label) + "\">"@
        + escaped(truncated(label, 22)) + "</span>\n  <div "@ + class_attr(classes.1)
        + "><div class=\"bar-fill\" style=\"width:"@ + decimal(pct as nat) + "%;background:"@ + color
        + "\"></div></div>\n  <span "@ + class_attr(classes.2) + ">"@ + decimal(count) + "</span>\n</div>"@
}

/// The attribute `class="c"`.
pub open spec fn class_attr(c: Seq<char>) -> Seq<char> {
    "class=\""@ + c + "\""@
}

/// One bar; `dark` selects the style for light backgrounds.
pub open spec fn bar_row_html(label: Seq<char>, count: nat, pct: u32, color: Seq<char>, dark: bool) -> Seq<char> {
    styled_bar_row(label, count, pct, color, bar_classes(dark))
}

/// The bars of `items`, bar `i` filled to `pcts[i]` percent.
pub open spec fn bar_rows_html(items: CountSeq, pcts: Seq<u32>, color: Seq<char>, dark: bool) -> Seq<char>
    decreases items.len(),
{
    if items.len() == 0 {
        Seq::empty()
    } else {
        bar_rows_html(items.drop_last(), pcts, color, dark) + bar_row_html(
            items.last().0,
            items.last().1,
            pcts[items.len() - 1],
            color,
            dark,
        )
    }
}

#[verifier::rlimit(40)]
fn bar_row_exec(label: &String, count: usize, pct: u32, color: &str, dark: bool) -> (r: String)
    ensures
        r@ == bar_row_html(label@, count as nat, pct, color@, dark),
{
    let full = html_escape(label.as_str());
    let short = html_escape(truncate_str(label.as_str(), 22).as_str());
    let (label_class, track_class, value_class) = if dark {
        ("bar-label dark-label", "bar-track light-track", "bar-value dark-label")
    } else {
        ("bar-label", "bar-track", "bar-value")
    };
    let mut h = owned("<div class=\"bar-row\">\n  <span ");
    h.append("class=\"");
    h.append(label_class);
    h.append("\"");
    h.append(" title=\"");
    h.append(full.as_str());
    h.append("\">");
    h.append(short.as_str());
    h.append("</span>\n  <div ");
    h.append("class=\"");
    h.append(track_class);
    h.append("\"");
    h.append("><div class=\"bar-fill\" style=\"width:");
    push_decimal(&mut h, pct as u64);
    h.append("%;background:");
    h.append(color);
    h.append("\"></div></div>\n  <span ");
    h.append("class=\"");
    h.append(value_class);
    h.append("\"");
    h.append(">");
    push_decimal(&mut h, count as u64);
    h.append("</span>\n</div>");
    h
}

fn bar_rows_exec(items: &Vec<(String, usize)>, percents: &Vec<u32>, color: &str, dark: bool) -> (r: String)
    requires
        percents@.len() == items@.len(),
    ensures
        r@ == bar_rows_html(count_pairs(items@), percents@, color@, dark),
{
    let ghost all = count_pairs(items@);
    let mut r = String::new();
    let mut i: usize = 0;
    assert(all.take(0) =~= Seq::<(Seq<char>, nat)>::empty());
    while i < items.len()
        invariant
            i <= items@.len(),
            percents@.len() == items@.len(),
            all == count_pairs(items@),
            r@ == bar_rows_html(all.take(i as int), percents@, color@, dark),
        decreases items@.len() - i,
    {
        assert(all.take(i + 1).drop_last() =~= all.take(i as int));
        let row = bar_row_exec(&items[i].0, items[i].1, percents[i], color, dark);
        r.append(row.as_str());
        i = i + 1;
    }
    assert(all.take(all.len() as int) =~= all);
    r
}

/// A bar chart for a dark background: bar `i` is filled to `percents[i]` percent.
pub fn render_bar_chart(items: &Vec<(String, usize)>, percents: &Vec<u32>, color: &str) -> (r: String)
    requires
        percents@.len() == items@.len(),
    ensures
        r@ == bar_rows_html(count_pairs(items@), percents@, color@, false),
{
    bar_rows_exec(items, percents, color, false)
}

/// A bar chart for a light background: bar `i` is filled to `percents[i]` percent.
pub fn render_bar_chart_dark(items: &Vec<(String, usize)>, percents: &Vec<u32>, color: &str) -> (r: String)
    requires
        percents@.len() == items@.len(),
    ensures
        r@ == bar_rows_html(count_pairs(items@), percents@, color@, true),
{
    bar_rows_exec(items, percents, color, true)
}

/// One entry of a count table as "name (count)".
pub open spec fn entry_text(e: (Seq<char>, nat)) -> Seq<char> {
    e.0 + " ("@ + decimal(e.1) + ")"@
}

/// The entries of a count table, separated by ", ".
pub open spec fn joined_entries(m: CountSeq) -> Seq<char>
    decreases m.len(),
{
    if m.len() == 0 {
        Seq::empty()
    } else if m.len() == 1 {
        entry_text(m[0])
    } else {
        joined_entries(m.drop_last()) + ", "@ + entry_text(m.last())
    }
}

/// The entries of a count table on one line, made safe for HTML.
pub open spec fn map_inline_html(m: CountSeq) -> Seq<char> {
    escaped(joined_entries(m))
}

/// The entries of a count table on one line, made safe for HTML.
pub fn render_map_inline(map: &Counter) -> (r: String)
    ensures
        r@ == map_inline_html(map@),
{
    let ghost all = map@;
    let mut t = String::new();
    let mut i: usize = 0;
    assert(all.take(0) =~= Seq::<(Seq<char>, nat)>::empty());
    while i < map.len()
        invariant
            i <= all.len(),
            all == map@,
            t@ == joined_entries(all.take(i as int)),
        decreases all.len() - i,
    {
        let (key, n) = map.entry(i);
        let ghost before = t@;
        assert(all.take(i + 1).drop_last() =~= all.take(i as int));
        if i > 0 {
            t.append(", ");
        }
        t.append(key.as_str());
        t.append(" (");
        push_decimal(&mut t, n as u64);
        t.append(")");
        proof {
            if i == 0 {
                assert(all.take(1)[0] == all[0]);
                assert(t@ =~= entry_text(all[0]));
            } else {
                assert(t@ =~= before + ", "@ + entry_text(all[i as int]));
            }
        }
        i = i + 1;
    }
    assert(all.take(all.len() as int) =~= all);
    html_escape(t.as_str())
}

/// One error line of the log panel.
pub open spec fn log_line_html(e: Seq<char>) -> Seq<char> {
    "<div class=\"log-line\">"@ + escaped(e) + "</div>"@
}

/// Log panel lines for `s`, in order, separated by newlines.
pub open spec fn joined_log_lines(s: Seq<Seq<char>>) -> Seq<char>
    decreases s.len(),
{
    if s.len() == 0 {
        Seq::empty()
    } else if s.len() == 1 {
        log_line_html(s[0])
    } else {
        joined_log_lines(s.drop_last()) + "\n"@ + log_line_html(s.last())
    }
}

/// The log panel: the latest error first.
pub open spec fn recent_errors_html(es: Seq<Seq<char>>) -> Seq<char> {
    joined_log_lines(es.reverse())
}

/// The log panel: the latest error first.
pub fn render_recent_errors(errors: &Vec<String>) -> (r: String)
    ensures
        r@ == recent_errors_html(errors.deep_view()),
{
    let ghost rev = errors.deep_view().reverse();
    let n = errors.len();
    let mut r = String::new();
    let mut j: usize = 0;
    assert(rev.take(0) =~= Seq::<Seq<char>>::empty());
    while j < n
        invariant
            j <= n,
            n == errors@.len(),
            rev == errors.deep_view().reverse(),
            r@ == joined_log_lines(rev.take(j as int)),
        decreases n - j,
    {
        let ghost before = r@;
        assert(rev.take(j + 1).drop_last() =~= rev.take(j as int));
        assert(rev[j as int] == errors@[n - 1 - j]@);
        if j > 0 {
            r.append("\n");
        }
        r.append("<div class=\"log-line\">");
        let e = html_escape(errors[n - 1 - j].as_str());
        r.append(e.as_str());
        r.append("</div>");
        proof {
            if j == 0 {
                assert(r@ =~= log_line_html(rev[0]));
            } else {
                assert(r@ =~= before + "\n"@ + log_line_html(rev[j as int]));
            }
        }
        j = j + 1;
    }
    assert(rev.take(n as int) =~= rev);
    r
}

// ---------------------------------------------------------------------------
// The page
// ---------------------------------------------------------------------------
/// How full each bar of the four charts is, in percent: error patterns,
/// error modules, node regions, node tiers.
pub struct BarPercents {
    pub patterns: Vec<u32>,
    pub modules: Vec<u32>,
    pub regions: Vec<u32>,
    pub tiers: Vec<u32>,
}

/// The mathematical content of `BarPercents`.
pub struct PercentsView {
    pub patterns: Seq<u32>,
    pub modules: Seq<u32>,
    pub regions: Seq<u32>,
    pub tiers: Seq<u32>,
}

impl View for BarPercents {
    type V = PercentsView;

    open spec fn view(&self) -> PercentsView {
        PercentsView {
            patterns: self.patterns@,
            modules: self.modules@,
            regions: self.regions@,
            tiers: self.tiers@,
        }
    }
}

/// The issues shown as cards: the first three.
pub open spec fn top_part(s: Seq<IssueView>) -> Seq<IssueView> {
    if s.len() >= 3 {
        s.take(3)
    } else {
        s
    }
}

/// The issues shown folded: all after the first three.
pub open spec fn minor_part(s: Seq<IssueView>) -> Seq<IssueView> {
    if s.len() > 3 {
        s.skip(3)
    } else {
        Seq::empty()
    }
}

/// The report page, generated at `now`.
pub open spec fn page_html(
    l: LogView,
    c: ConfigView,
    issues: Seq<IssueView>,
    now: Seq<char>,
    pcts: PercentsView,
) -> Seq<char> {
    "<!DOCTYPE html>\n<html lang=\"zh-CN\">\n<head>\n<meta charset=\"utf-8\">\n<meta name=\"viewport\" content=\"width=device-width, initial-scale=1\">\n<title>vvpn 诊断报告</title>\n<style>\n"@ + REPORT_CSS@ + "\n</style>\n</head>\n<body>\n<div class=\"page\">\n\n<!-- Hero -->\n<header class=\"hero\">\n  <div class=\"hero-inner\">\n    <div class=\"hero-badge\">DIAGNOSTICS</div>\n    <h1>VPN 环境诊断报告</h1>\n    <p class=\"hero-sub\">vvpn · "@ + now + " · Stash for macOS</p>\n  </div>\n</header>\n\n<!-- Stats Bar -->\n<section class=\"stats-bar\">\n  <div class=\"container\">\n    <div class=\"stats-row\">\n      <div class=\"stat-item\">\n        <span class=\"stat-value\">"@ + decimal(c.proxy_count) + "</span>\n        <span class=\"stat-name\">NODES</span>\n      </div>\n      <div class=\"stat-item\">\n        <span class=\"stat-value\">"@ + decimal(c.group_count) + "</span>\n        <span class=\"stat-name\">GROUPS</span>\n      </div>\n      <div class=\"stat-item\">\n        <span class=\"stat-value\">"@ + decimal(c.rule_count) + "</span>\n        <span class=\"stat-name\">RULES</span>\n      </div>\n      <div class=\"stat-item\">\n        <span class=\"stat-value\">"@ + decimal(l.file_count) + "</span>\n        <span class=\"stat-name\">LOG FILES</span>\n      </div>\n      <div class=\"stat-item\">\n        <span class=\"stat-value accent-red\">"@ + decimal(l.error_count) + "</span>\n        <span class=\"stat-name\">ERRORS</span>\n      </div>\n      <div class=\"stat-item\">\n        <span class=\"stat-value accent-amber\">"@ + decimal(l.warn_count) + "</span>\n        <span class=\"stat-name\">WARNINGS</span>\n      </div>\n    </div>\n  </div>\n</section>\n\n<!-- Top Issues -->\n<section class=\"section-dark\">\n  <div class=\"container\">\n    <div class=\"section-label\">TOP ISSUES</div>\n    <h2>最需要关注的问题</h2>\n    <div class=\"issues-stack\">\n      "@ + top_issues_html(top_part(issues)) + "\n    </div>\n  </div>\n</section>\n\n<!-- Subscription & Config -->\n<section class=\"section-light\">\n  <div class=\"container\">\n    <div class=\"section-label\">OVERVIEW</div>\n    <h2 class=\"heading-dark\">环境概览</h2>\n    <div class=\"grid-3\">\n      "@ + subscription_card_html(c) + "\n      "@ + ports_card_html(c) + "\n      "@ + dns_card_html(c) + "\n    </div>\n  </div>\n</section>\n\n<!-- Error Distribution -->\n<section class=\"section-dark\">\n  <div class=\"container\">\n    <div class=\"section-label\">ERROR ANALYSIS</div>\n    <h2>错误分布</h2>\n    <div class=\"grid-2\">\n      <div class=\"panel\">\n        <h3>按类型</h3>\n        <div class=\"bar-chart\">\n          "@ + bar_rows_html(bar_items(l.error_patterns), pcts.patterns, "#DA291C"@, false) + "\n        </div>\n      </div>\n      <div class=\"panel\">\n        <h3>按模块</h3>\n        <div class=\"bar-chart\">\n          "@ + bar_rows_html(bar_items(l.errors_by_module), pcts.modules, "#8F8F8F"@, false) + "\n        </div>\n      </div>\n    </div>\n  </div>\n</section>\n\n<!-- Node Distribution -->\n<section class=\"section-light\">\n  <div class=\"container\">\n    <div class=\"section-label\">INFRASTRUCTURE</div>\n    <h2 class=\"heading-dark\">节点分布</h2>\n    <div class=\"grid-2\">\n      <div class=\"panel-light\">\n        <h3 class=\"h3-dark\">按地区</h3>\n        <div class=\"bar-chart\">\n          "@ + bar_rows_html(bar_items(c.nodes_by_region), pcts.regions, "#181818"@, true) + "\n        </div>\n      </div>\n      <div class=\"panel-light\">\n        <h3 class=\"h3-dark\">线路等级 &amp; 协议</h3>\n        <div class=\"bar-chart\">\n          "@ + bar_rows_html(bar_items(c.nodes_by_tier), pcts.tiers, "#DA291C"@, true) + "\n        </div>\n        <div class=\"detail-table\">\n          <div class=\"detail-row\"><span class=\"detail-key\">协议</span><span class=\"detail-val\">"@ + map_inline_html(c.nodes_by_type) + "</span></div>\n          <div class=\"detail-row\"><span class=\"detail-key\">加密</span><span class=\"detail-val\">"@ + map_inline_html(c.nodes_by_cipher) + "</span></div>\n          <div class=\"detail-row\"><span class=\"detail-key\">独立服务器</span><span class=\"detail-val\">"@ + decimal(c.unique_servers.len()) + " 台</span></div>\n          <div class=\"detail-row\"><span class=\"detail-key\">密码统一</span><span class=\"detail-val\">"@ + yes_no(c.single_password) + "</span></div>\n        </div>\n      </div>\n    </div>\n  </div>\n</section>\n\n<!-- Minor Issues -->\n"@ + minor_issues_html(minor_part(issues)) + "\n\n<!-- Recent Errors -->\n<section class=\"section-dark\">\n  <div class=\"container\">\n    <div class=\"section-label\">RAW LOGS</div>\n    <h2>最近的错误日志</h2>\n    <div class=\"log-panel\">\n      <div class=\"log-header\">\n        <span>"@ + decimal(l.recent_errors.len()) + " 条记录</span>\n      </div>\n      <div class=\"log-body\">\n        "@ + recent_errors_html(l.recent_errors) + "\n      </div>\n    </div>\n  </div>\n</section>\n\n<footer>\n  <div class=\"container\">\n    <p>vvpn v0.1.0</p>\n  </div>\n</footer>\n\n</div>\n</body>\n</html>"@
}

/// The report page for the logs, the configuration and the issues (most
/// serious first), generated at `now`; `percents` tells how full each bar of
/// the four charts is.
pub fn render(
    logs: &LogReport,
    config: &ConfigReport,
    issues: &[Issue],
    now: &str,
    percents: &BarPercents,
) -> (h: String)
    requires
        percents.patterns@.len() == bar_items(logs.error_patterns@).len(),
        percents.modules@.len() == bar_items(logs.errors_by_module@).len(),
        percents.regions@.len() == bar_items(config.nodes_by_region@).len(),
        percents.tiers@.len() == bar_items(config.nodes_by_tier@).len(),
    ensures
        h@ == page_html(logs@, config@, issues_view(issues@), now@, percents@),
{
    let k = if issues.len() >= 3 {
        3
    } else {
        issues.len()
    };
    let (top, minor) = issues.split_at(k);
    assert(issues_view(top@) =~= top_part(issues_view(issues@)));
    assert(issues_view(minor@) =~= minor_part(issues_view(issues@)));
    let top_html = render_top_issues(top);
    let minor_html = render_minor_issues(minor);
    let sub_html = render_subscription_card(config);
    let ports_html = render_ports_card(config);
    let dns_html = render_dns_card(config);
    let pattern_items = top_bars(&logs.error_patterns);
    let pattern_bars = render_bar_chart(&pattern_items, &percents.patterns, "#DA291C");
    let module_items = top_bars(&logs.errors_by_module);
    let module_bars = render_bar_chart(&module_items, &percents.modules, "#8F8F8F");
    let region_items = top_bars(&config.nodes_by_region);
    let region_bars = render_bar_chart_dark(&region_items, &percents.regions, "#181818");
    let tier_items = top_bars(&config.nodes_by_tier);
    let tier_bars = render_bar_chart_dark(&tier_items, &percents.tiers, "#DA291C");
    let protocol_info = render_map_inline(&config.nodes_by_type);
    let cipher_info = render_map_inline(&config.nodes_by_cipher);
    let recent_html = render_recent_errors(&logs.recent_errors);
    let mut h = owned("<!DOCTYPE html>\n<html lang=\"zh-CN\">\n<head>\n<meta charset=\"utf-8\">\n<meta name=\"viewport\" content=\"width=device-width, initial-scale=1\">\n<title>vvpn 诊断报告</title>\n<style>\n");
    h.append(REPORT_CSS);
    h.append("\n</style>\n</head>\n<body>\n<div class=\"page\">\n\n<!-- Hero -->\n<header class=\"hero\">\n  <div class=\"hero-inner\">\n    <div class=\"hero-badge\">DIAGNOSTICS</div>\n    <h1>VPN 环境诊断报告</h1>\n    <p class=\"hero-sub\">vvpn · ");
    h.append(now);
    h.append(" · Stash for macOS</p>\n  </div>\n</header>\n\n<!-- Stats Bar -->\n<section class=\"stats-bar\">\n  <div class=\"container\">\n    <div class=\"stats-row\">\n      <div class=\"stat-item\">\n        <span class=\"stat-value\">");
    push_decimal(&mut h, config.proxy_count as u64);
    h.append("</span>\n        <span class=\"stat-name\">NODES</span>\n      </div>\n      <div class=\"stat-item\">\n        <span class=\"stat-value\">");
    push_decimal(&mut h, config.group_count as u64);
    h.append("</span>\n        <span class=\"stat-name\">GROUPS</span>\n      </div>\n      <div class=\"stat-item\">\n        <span class=\"stat-value\">");
    push_decimal(&mut h, config.rule_count as u64);
    h.append("</span>\n        <span class=\"stat-name\">RULES</span>\n      </div>\n      <div class=\"stat-item\">\n        <span class=\"stat-value\">");
    push_decimal(&mut h, logs.file_count as u64);
    h.append("</span>\n        <span class=\"stat-name\">LOG FILES</span>\n      </div>\n      <div class=\"stat-item\">\n        <span class=\"stat-value accent-red\">");
    push_decimal(&mut h, logs.error_count as u64);
    h.append("</span>\n        <span class=\"stat-name\">ERRORS</span>\n      </div>\n      <div class=\"stat-item\">\n        <span class=\"stat-value accent-amber\">");
    push_decimal(&mut h, logs.warn_count as u64);
    h.append("</span>\n        <span class=\"stat-name\">WARNINGS</span>\n      </div>\n    </div>\n  </div>\n</section>\n\n<!-- Top Issues -->\n<section class=\"section-dark\">\n  <div class=\"container\">\n    <div class=\"section-label\">TOP ISSUES</div>\n    <h2>最需要关注的问题</h2>\n    <div class=\"issues-stack\">\n      ");
    h.append(top_html.as_str());
    h.append("\n    </div>\n  </div>\n</section>\n\n<!-- Subscription & Config -->\n<section class=\"section-light\">\n  <div class=\"container\">\n    <div class=\"section-label\">OVERVIEW</div>\n    <h2 class=\"heading-dark\">环境概览</h2>\n    <div class=\"grid-3\">\n      ");
    h.append(sub_html.as_str());
    h.append("\n      ");
    h.append(ports_html.as_str());
    h.append("\n      ");
    h.append(dns_html.as_str());
    h.append("\n    </div>\n  </div>\n</section>\n\n<!-- Error Distribution -->\n<section class=\"section-dark\">\n  <div class=\"container\">\n    <div class=\"section-label\">ERROR ANALYSIS</div>\n    <h2>错误分布</h2>\n    <div class=\"grid-2\">\n      <div class=\"panel\">\n        <h3>按类型</h3>\n        <div class=\"bar-chart\">\n          ");
    h.append(pattern_bars.as_str());
    h.append("\n        </div>\n      </div>\n      <div class=\"panel\">\n        <h3>按模块</h3>\n        <div class=\"bar-chart\">\n          ");
    h.append(module_bars.as_str());
    h.append("\n        </div>\n      </div>\n    </div>\n  </div>\n</section>\n\n<!-- Node Distribution -->\n<section class=\"section-light\">\n  <div class=\"container\">\n    <div class=\"section-label\">INFRASTRUCTURE</div>\n    <h2 class=\"heading-dark\">节点分布</h2>\n    <div class=\"grid-2\">\n      <div class=\"panel-light\">\n        <h3 class=\"h3-dark\">按地区</h3>\n        <div class=\"bar-chart\">\n          ");
    h.append(region_bars.as_str());
    h.append("\n        </div>\n      </div>\n      <div class=\"panel-light\">\n        <h3 class=\"h3-dark\">线路等级 &amp; 协议</h3>\n        <div class=\"bar-chart\">\n          ");
    h.append(tier_bars.as_str());
    h.append("\n        </div>\n        <div class=\"detail-table\">\n          <div class=\"detail-row\"><span class=\"detail-key\">协议</span><span class=\"detail-val\">");
    h.append(protocol_info.as_str());
    h.append("</span></div>\n          <div class=\"detail-row\"><span class=\"detail-key\">加密</span><span class=\"detail-val\">");
    h.append(cipher_info.as_str());
    h.append("</span></div>\n          <div class=\"detail-row\"><span class=\"detail-key\">独立服务器</span><span class=\"detail-val\">");
    push_decimal(&mut h, config.unique_servers.len() as u64);
    h.append(" 台</span></div>\n          <div class=\"detail-row\"><span class=\"detail-key\">密码统一</span><span class=\"detail-val\">");
    h.append(yes_no_exec(config.single_password));
    h.append("</span></div>\n        </div>\n      </div>\n    </div>\n  </div>\n</section>\n\n<!-- Minor Issues -->\n");
    h.append(minor_html.as_str());
    h.append("\n\n<!-- Recent Errors -->\n<section class=\"section-dark\">\n  <div class=\"container\">\n    <div class=\"section-label\">RAW LOGS</div>\n    <h2>最近的错误日志</h2>\n    <div class=\"log-panel\">\n      <div class=\"log-header\">\n        <span>");
    push_decimal(&mut h, logs.recent_errors.len() as u64);
    h.append(" 条记录</span>\n      </div>\n      <div class=\"log-body\">\n        ");
    h.append(recent_html.as_str());
    h.append("\n      </div>\n    </div>\n  </div>\n</section>\n\n<footer>\n  <div class=\"container\">\n    <p>vvpn v0.1.0</p>\n  </div>\n</footer>\n\n</div>\n</body>\n</html>");
    h
}

// ---------------------------------------------------------------------------
// Laws
// ---------------------------------------------------------------------------
/// Escaping works character by character: the escape of a concatenation is
/// the concatenation of the escapes.
pub proof fn law_escaped_concat(a: Seq<char>, b: Seq<char>)
    ensures
        escaped(a + b) == escaped(a) + escaped(b),
    decreases b.len(),
{
    if b.len() == 0 {
        assert(a + b =~= a);
        assert(escaped(a) + escaped(b) =~= escaped(a));
    } else {
        law_escaped_concat(a, b.drop_last());
        assert((a + b).drop_last() =~= a + b.drop_last());
        assert(escaped(a) + escaped(b.drop_last()) + escape_char(b.last()) =~= escaped(a) + (
        escaped(b.drop_last()) + escape_char(b.last())));
    }
}

/// Escaped text holds no '<', '>' or '"', so it can neither open a tag nor
/// end an attribute value.
pub proof fn law_escaped_is_safe(s: Seq<char>)
    ensures
        forall|i: int|
            0 <= i < escaped(s).len() ==> #[trigger] escaped(s)[i] != '<' && escaped(s)[i] != '>'
                && escaped(s)[i] != '"',
    decreases s.len(),
{
    reveal_strlit("&amp;");
    reveal_strlit("&lt;");
    reveal_strlit("&gt;");
    reveal_strlit("&quot;");
    if s.len() > 0 {
        law_escaped_is_safe(s.drop_last());
        let p = escaped(s.drop_last());
        let e = escape_char(s.last());
        assert forall|i: int| 0 <= i < escaped(s).len() implies #[trigger] escaped(s)[i] != '<'
            && escaped(s)[i] != '>' && escaped(s)[i] != '"' by {
            if i < p.len() {
                assert(escaped(s)[i] == p[i]);
            } else {
                assert(escaped(s)[i] == e[i - p.len()]);
            }
        }
    }
}

/// `t` decoded from the left: "&amp;", "&lt;", "&gt;" and "&quot;" become
/// the characters they stand for; any other character stays as it is.
pub open spec fn unescaped(t: Seq<char>) -> Seq<char>
    decreases t.len(),
{
    if t.len() == 0 {
        Seq::empty()
    } else if t.len() >= 5 && starts_with(t, "&amp;"@) {
        seq!['&'] + unescaped(t.skip(5))
    } else if t.len() >= 4 && starts_with(t, "&lt;"@) {
        seq!['<'] + unescaped(t.skip(4))
    } else if t.len() >= 4 && starts_with(t, "&gt;"@) {
        seq!['>'] + unescaped(t.skip(4))
    } else if t.len() >= 6 && starts_with(t, "&quot;"@) {
        seq!['"'] + unescaped(t.skip(6))
    } else {
        seq![t[0]] + unescaped(t.drop_first())
    }
}

/// A text whose `j`-th character differs from that of `lit` does not start
/// with `lit`.
proof fn lemma_not_starts(x: Seq<char>, lit: Seq<char>, j: int)
    requires
        0 <= j < lit.len(),
        j < x.len() ==> x[j] != lit[j],
    ensures
        !starts_with(x, lit),
{
    if starts_with(x, lit) {
        assert(x.subrange(0, lit.len() as int)[j] == x[j]);
    }
}

/// A text starting with `lit` still does when more follows.
proof fn lemma_starts_append(x: Seq<char>, y: Seq<char>, lit: Seq<char>)
    requires
        starts_with(x, lit),
    ensures
        starts_with(x + y, lit),
{
    assert((x + y).subrange(0, lit.len() as int) =~= x.subrange(0, lit.len() as int));
}

/// The escape of one character followed by `t` decodes to that character
/// followed by the decoding of `t`.
proof fn lemma_unescape_step(c: char, t: Seq<char>)
    ensures
        unescaped(escape_char(c) + t) == seq![c] + unescaped(t),
{
    reveal_strlit("&amp;");
    reveal_strlit("&lt;");
    reveal_strlit("&gt;");
    reveal_strlit("&quot;");
    let e = escape_char(c);
    let x = e + t;
    if c == '&' {
        assert(x.subrange(0, 5) =~= "&amp;"@);
        assert(x.skip(5) =~= t);
    } else if c == '<' {
        lemma_not_starts(x, "&amp;"@, 1);
        assert(x.subrange(0, 4) =~= "&lt;"@);
        assert(x.skip(4) =~= t);
    } else if c == '>' {
        lemma_not_starts(x, "&amp;"@, 1);
        lemma_not_starts(x, "&lt;"@, 1);
        assert(x.subrange(0, 4) =~= "&gt;"@);
        assert(x.skip(4) =~= t);
    } else if c == '"' {
        lemma_not_starts(x, "&amp;"@, 1);
        lemma_not_starts(x, "&lt;"@, 1);
        lemma_not_starts(x, "&gt;"@, 1);
        assert(x.subrange(0, 6) =~= "&quot;"@);
        assert(x.skip(6) =~= t);
    } else {
        lemma_not_starts(x, "&amp;"@, 0);
        lemma_not_starts(x, "&lt;"@, 0);
        lemma_not_starts(x, "&gt;"@, 0);
        lemma_not_starts(x, "&quot;"@, 0);
        assert(x.drop_first() =~= t);
    }
}

/// The escape of a text is the escape of its first character followed by
/// the escape of the rest.
proof fn lemma_escaped_first(s: Seq<char>)
    requires
        s.len() > 0,
    ensures
        escaped(s) == escape_char(s[0]) + escaped(s.drop_first()),
{
    law_escaped_concat(seq![s[0]], s.drop_first());
    assert(seq![s[0]] + s.drop_first() =~= s);
    assert(seq![s[0]].drop_last() =~= Seq::<char>::empty());
    assert(escaped(Seq::<char>::empty()) + escape_char(s[0]) =~= escape_char(s[0]));
}

/// Escaping can be undone: decoding the entities from the left gives the
/// text back.  A text without '&', '<', '>' or '"' is its own escape.
pub proof fn law_escaped_decodes(s: Seq<char>)
    ensures
        unescaped(escaped(s)) == s,
        (forall|i: int| 0 <= i < s.len() ==> s[i] != '&' && s[i] != '<' && s[i] != '>' && s[i]
            != '"') ==> escaped(s) == s,
    decreases s.len(),
{
    if s.len() > 0 {
        law_escaped_decodes(s.drop_first());
        law_escaped_decodes(s.drop_last());
        lemma_escaped_first(s);
        lemma_unescape_step(s[0], escaped(s.drop_first()));
        assert(seq![s[0]] + s.drop_first() =~= s);
        if forall|i: int| 0 <= i < s.len() ==> s[i] != '&' && s[i] != '<' && s[i] != '>' && s[i] != '"' {
            assert(forall|i: int| 0 <= i < s.drop_last().len() ==> s.drop_last()[i] == s[i]);
            assert(s.drop_last().push(s.last()) =~= s);
            assert(escape_char(s.last()) =~= seq![s.last()]);
        }
    } else {
        assert(escaped(s) =~= s);
    }
}

/// Different texts never escape alike.
pub proof fn law_escaped_injective(a: Seq<char>, b: Seq<char>)
    ensures
        escaped(a) == escaped(b) ==> a == b,
{
    law_escaped_decodes(a);
    law_escaped_decodes(b);
}

/// Every '&' in an escaped text starts one of the four entities.
pub proof fn law_escaped_entities(s: Seq<char>)
    ensures
        forall|i: int|
            0 <= i < escaped(s).len() && #[trigger] escaped(s)[i] == '&' ==> {
                let rest = escaped(s).skip(i);
                ||| starts_with(rest, "&amp;"@)
                ||| starts_with(rest, "&lt;"@)
                ||| starts_with(rest, "&gt;"@)
                ||| starts_with(rest, "&quot;"@)
            },
    decreases s.len(),
{
    reveal_strlit("&amp;");
    reveal_strlit("&lt;");
    reveal_strlit("&gt;");
    reveal_strlit("&quot;");
    if s.len() > 0 {
        law_escaped_entities(s.drop_last());
        let p = escaped(s.drop_last());
        let e = escape_char(s.last());
        assert(escaped(s) == p + e);
        assert forall|i: int| 0 <= i < escaped(s).len() && #[trigger] escaped(s)[i] == '&' implies {
            let rest = escaped(s).skip(i);
            ||| starts_with(rest, "&amp;"@)
            ||| starts_with(rest, "&lt;"@)
            ||| starts_with(rest, "&gt;"@)
            ||| starts_with(rest, "&quot;"@)
        } by {
            if i < p.len() {
                assert(escaped(s)[i] == p[i]);
                assert((p + e).skip(i) =~= p.skip(i) + e);
                if starts_with(p.skip(i), "&amp;"@) {
                    lemma_starts_append(p.skip(i), e, "&amp;"@);
                } else if starts_with(p.skip(i), "&lt;"@) {
                    lemma_starts_append(p.skip(i), e, "&lt;"@);
                } else if starts_with(p.skip(i), "&gt;"@) {
                    lemma_starts_append(p.skip(i), e, "&gt;"@);
                } else {
                    lemma_starts_append(p.skip(i), e, "&quot;"@);
                }
            } else {
                assert(escaped(s)[i] == e[i - p.len()]);
                assert(i == p.len());
                assert((p + e).skip(i) =~= e);
                assert(e.subrange(0, e.len() as int) =~= e);
            }
        }
    }
}

/// The bars of `items` with the given classes, bar `i` filled to `pcts[i]`
/// percent.
pub open spec fn styled_bar_rows(
    items: CountSeq,
    pcts: Seq<u32>,
    color: Seq<char>,
    classes: (Seq<char>, Seq<char>, Seq<char>),
) -> Seq<char>
    decreases items.len(),
{
    if items.len() == 0 {
        Seq::empty()
    } else {
        styled_bar_rows(items.drop_last(), pcts, color, classes) + styled_bar_row(
            items.last().0,
            items.last().1,
            pcts[items.len() - 1],
            color,
            classes,
        )
    }
}

/// The charts for dark and for light backgrounds are the same rows, and
/// differ only in the classes of each bar's label, track and value.
pub proof fn law_bar_chart_styles(items: CountSeq, pcts: Seq<u32>, color: Seq<char>)
    ensures
        bar_rows_html(items, pcts, color, false) == styled_bar_rows(
            items,
            pcts,
            color,
            ("bar-label"@, "bar-track"@, "bar-value"@),
        ),
        bar_rows_html(items, pcts, color, true) == styled_bar_rows(
            items,
            pcts,
            color,
            ("bar-label dark-label"@, "bar-track light-track"@, "bar-value dark-label"@),
        ),
    decreases items.len(),
{
    if items.len() > 0 {
        law_bar_chart_styles(items.drop_last(), pcts, color);
    }
}

/// The three class attributes whose change turns a chart for a dark
/// background into one for a light background.
pub open spec fn is_plain_bar_class(f: Seq<char>) -> bool {
    ||| f == class_attr("bar-label"@)
    ||| f == class_attr("bar-track"@)
    ||| f == class_attr("bar-value"@)
}

/// A decimal has no '"'.
proof fn lemma_decimal_unquoted(n: nat)
    ensures
        forall|i: int| 0 <= i < decimal(n).len() ==> decimal(n)[i] != '"',
    decreases n,
{
    if n >= 10 {
        lemma_decimal_unquoted(n / 10);
        let p = decimal(n / 10);
        assert(decimal(n) == p.push(digit_char(n % 10)));
        assert forall|i: int| 0 <= i < decimal(n).len() implies decimal(n)[i] != '"' by {
            if i < p.len() {
                assert(decimal(n)[i] == p[i]);
            }
        }
    } else {
        assert(decimal(n) == seq![digit_char(n)]);
    }
}

/// Near its end, `a` has no 'c' followed by 'l': no plain bar class can
/// start there and run past its end.
pub open spec fn no_class_start_near_end(a: Seq<char>) -> bool {
    forall|i: int|
        0 <= i < a.len() < i + 17 ==> #[trigger] a[i] != 'c' || (i + 1 < a.len() && a[i + 1] != 'l')
}

/// No plain bar class occurs in `a` but where a 'c' is followed, 11 places
/// later, by the letter the class has there.
pub open spec fn no_class_mismatch(a: Seq<char>, f: Seq<char>) -> bool {
    forall|i: int| 0 <= i && i + f.len() <= a.len() && #[trigger] a[i] == f[0] ==> a[i + 11] != f[11]
}

/// The plain bar classes, and the fixed text of a bar row: none of the
/// classes occurs in that text, and none can begin near the end of a piece.
proof fn lemma_bar_row_pieces(f: Seq<char>)
    requires
        is_plain_bar_class(f),
    ensures
        f.len() == 17,
        f[0] == 'c',
        f[1] == 'l',
        f[6] == '"',
        f[7] == 'b',
        forall|k: int| 0 < k < 6 ==> f[k] != '"',
        forall|j: int| 0 <= j < f.len() ==> f[j] != '<' && f[j] != '%',
        no_class_mismatch("<div class=\"bar-row\">\n  <span "@, f),
        no_class_mismatch(" title=\""@, f),
        no_class_mismatch("\">"@, f),
        no_class_mismatch("</span>\n  <div "@, f),
        no_class_mismatch("><div class=\"bar-fill\" style=\"width:"@, f),
        no_class_mismatch("%;background:"@, f),
        no_class_mismatch("\"></div></div>\n  <span "@, f),
        no_class_mismatch(">"@, f),
        no_class_mismatch("</span>\n</div>"@, f),
        no_class_start_near_end("<div class=\"bar-row\">\n  <span "@),
        no_class_start_near_end(" title=\""@),
        no_class_start_near_end("\">"@),
        no_class_start_near_end("</span>\n  <div "@),
        no_class_start_near_end("><div class=\"bar-fill\" style=\"width:"@),
        no_class_start_near_end("%;background:"@),
        no_class_start_near_end("\"></div></div>\n  <span "@),
        no_class_start_near_end(">"@),
        "\">"@.len() == 2 && "\">"@[0] == '"' && "\">"@[1] == '>',
        "</span>\n  <div "@.len() > 0 && "</span>\n  <div "@[0] == '<',
        "%;background:"@.len() > 0 && "%;background:"@[0] == '%',
        "\"></div></div>\n  <span "@.len() >= 2 && "\"></div></div>\n  <span "@[0] == '"'
            && "\"></div></div>\n  <span "@[1] == '>',
        "</span>\n</div>"@.len() > 0 && "</span>\n</div>"@[0] == '<',
        "<div class=\"bar-row\">\n  <span "@.len() > 0 && "<div class=\"bar-row\">\n  <span "@[0] == '<',
{
    reveal_strlit("class=\"");
    reveal_strlit("\"");
    reveal_strlit("bar-label");
    reveal_strlit("bar-track");
    reveal_strlit("bar-value");
    reveal_strlit("<div class=\"bar-row\">\n  <span ");
    reveal_strlit(" title=\"");
    reveal_strlit("\">");
    reveal_strlit("</span>\n  <div ");
    reveal_strlit("><div class=\"bar-fill\" style=\"width:");
    reveal_strlit("%;background:");
    reveal_strlit("\"></div></div>\n  <span ");
    reveal_strlit(">");
    reveal_strlit("</span>\n</div>");
}

/// A bar row, grouped from its last piece: each piece followed by the rest.
pub open spec fn bar_row_nested(
    label: Seq<char>,
    count: nat,
    pct: u32,
    color: Seq<char>,
    c: (Seq<char>, Seq<char>, Seq<char>),
) -> Seq<char> {
    let p0a = "<div class=\"bar-row\">\n  <span "@;
    let p0b = " title=\""@;
    let p1 = "\">"@;
    let p2a = "</span>\n  <div "@;
    let p2b = "><div class=\"bar-fill\" style=\"width:"@;
    let p3 = "%;background:"@;
    let p4a = "\"></div></div>\n  <span "@;
    let p4b = ">"@;
    let p5 = "</span>\n</div>"@;
    let e1 = escaped(label);
    let e2 = escaped(truncated(label, 22));
    let d1 = decimal(pct as nat);
    let d2 = decimal(count);
    let (c0, c1, c2) = (class_attr(c.0), class_attr(c.1), class_attr(c.2));
    p0a + (c0 + (p0b + (e1 + (p1 + (e2 + (p2a + (c1 + (p2b + (d1 + (p3 + (color + (p4a + (c2
        + (p4b + (d2 + p5)))))))))))))))
}

proof fn lemma_bar_row_nested(
    label: Seq<char>,
    count: nat,
    pct: u32,
    color: Seq<char>,
    c: (Seq<char>, Seq<char>, Seq<char>),
)
    ensures
        styled_bar_row(label, count, pct, color, c) == bar_row_nested(label, count, pct, color, c),
{
    let p0a = "<div class=\"bar-row\">\n  <span "@;
    let p0b = " title=\""@;
    let p1 = "\">"@;
    let p2a = "</span>\n  <div "@;
    let p2b = "><div class=\"bar-fill\" style=\"width:"@;
    let p3 = "%;background:"@;
    let p4a = "\"></div></div>\n  <span "@;
    let p4b = ">"@;
    let p5 = "</span>\n</div>"@;
    let e1 = escaped(label);
    let e2 = escaped(truncated(label, 22));
    let d1 = decimal(pct as nat);
    let d2 = decimal(count);
    let (c0, c1, c2) = (class_attr(c.0), class_attr(c.1), class_attr(c.2));
    // `l_k` is the row up to piece `k`, grouped from the left; `n_k` the row
    // from piece `k` on, grouped from the right
    let l0 = p0a;
    let l1 = l0 + c0;
    let l2 = l1 + p0b;
    let l3 = l2 + e1;
    let l4 = l3 + p1;
    let l5 = l4 + e2;
    let l6 = l5 + p2a;
    let l7 = l6 + c1;
    let l8 = l7 + p2b;
    let l9 = l8 + d1;
    let l10 = l9 + p3;
    let l11 = l10 + color;
    let l12 = l11 + p4a;
    let l13 = l12 + c2;
    let l14 = l13 + p4b;
    let l15 = l14 + d2;
    let l16 = l15 + p5;
    let n16 = p5;
    let n15 = d2 + n16;
    let n14 = p4b + n15;
    let n13 = c2 + n14;
    let n12 = p4a + n13;
    let n11 = color + n12;
    let n10 = p3 + n11;
    let n9 = d1 + n10;
    let n8 = p2b + n9;
    let n7 = c1 + n8;
    let n6 = p2a + n7;
    let n5 = e2 + n6;
    let n4 = p1 + n5;
    let n3 = e1 + n4;
    let n2 = p0b + n3;
    let n1 = c0 + n2;
    vstd::seq_lib::lemma_concat_associative(l14, d2, n16);
    vstd::seq_lib::lemma_concat_associative(l13, p4b, n15);
    vstd::seq_lib::lemma_concat_associative(l12, c2, n14);
    vstd::seq_lib::lemma_concat_associative(l11, p4a, n13);
    vstd::seq_lib::lemma_concat_associative(l10, color, n12);
    vstd::seq_lib::lemma_concat_associative(l9, p3, n11);
    vstd::seq_lib::lemma_concat_associative(l8, d1, n10);
    vstd::seq_lib::lemma_concat_associative(l7, p2b, n9);
    vstd::seq_lib::lemma_concat_associative(l6, c1, n8);
    vstd::seq_lib::lemma_concat_associative(l5, p2a, n7);
    vstd::seq_lib::lemma_concat_associative(l4, e2, n6);
    vstd::seq_lib::lemma_concat_associative(l3, p1, n5);
    vstd::seq_lib::lemma_concat_associative(l2, e1, n4);
    vstd::seq_lib::lemma_concat_associative(l1, p0b, n3);
    vstd::seq_lib::lemma_concat_associative(l0, c0, n2);
}

/// Replacing in `x + rest` where no occurrence straddles the two.
proof fn lemma_replaced_step(x: Seq<char>, rest: Seq<char>, f: Seq<char>, t: Seq<char>, x2: Seq<char>, rest2: Seq<char>)
    requires
        f.len() > 0,
        no_straddle(x, rest, f),
        replaced(x, f, t) == x2,
        replaced(rest, f, t) == rest2,
    ensures
        replaced(x + rest, f, t) == x2 + rest2,
{
    lemma_replaced_concat(x, rest, f, t);
}

/// Replacing one plain bar class `f` by `t` in a bar row changes only what
/// it makes of the row's three class attributes.
proof fn lemma_bar_row_replaced(
    label: Seq<char>,
    count: nat,
    pct: u32,
    color: Seq<char>,
    c: (Seq<char>, Seq<char>, Seq<char>),
    d: (Seq<char>, Seq<char>, Seq<char>),
    f: Seq<char>,
    t: Seq<char>,
)
    requires
        is_plain_bar_class(f),
        forall|i: int| 0 <= i < color.len() ==> color[i] != '"',
        replaced(class_attr(c.0), f, t) == class_attr(d.0),
        replaced(class_attr(c.1), f, t) == class_attr(d.1),
        replaced(class_attr(c.2), f, t) == class_attr(d.2),
        no_class_start_near_end(class_attr(c.0)),
        no_class_start_near_end(class_attr(c.1)),
        no_class_start_near_end(class_attr(c.2)),
    ensures
        replaced(styled_bar_row(label, count, pct, color, c), f, t) == styled_bar_row(
            label,
            count,
            pct,
            color,
            d,
        ),
{
    lemma_bar_row_pieces(f);
    lemma_bar_row_nested(label, count, pct, color, c);
    lemma_bar_row_nested(label, count, pct, color, d);
    law_escaped_is_safe(label);
    law_escaped_is_safe(truncated(label, 22));
    lemma_decimal_unquoted(pct as nat);
    lemma_decimal_unquoted(count);
    let p0a = "<div class=\"bar-row\">\n  <span "@;
    let p0b = " title=\""@;
    let p1 = "\">"@;
    let p2a = "</span>\n  <div "@;
    let p2b = "><div class=\"bar-fill\" style=\"width:"@;
    let p3 = "%;background:"@;
    let p4a = "\"></div></div>\n  <span "@;
    let p4b = ">"@;
    let p5 = "</span>\n</div>"@;
    let e1 = escaped(label);
    let e2 = escaped(truncated(label, 22));
    let d1 = decimal(pct as nat);
    let d2 = decimal(count);
    let (c0, c1, c2) = (class_attr(c.0), class_attr(c.1), class_attr(c.2));
    let (x0, x1, x2) = (class_attr(d.0), class_attr(d.1), class_attr(d.2));
    // the row before (`r`) and after (`n`) the replacement, from each piece on
    let r16 = p5;
    let n16 = p5;
    let r15 = d2 + r16;
    let n15 = d2 + n16;
    let r14 = p4b + r15;
    let n14 = p4b + n15;
    let r13 = c2 + r14;
    let n13 = x2 + n14;
    let r12 = p4a + r13;
    let n12 = p4a + n13;
    let r11 = color + r12;
    let n11 = color + n12;
    let r10 = p3 + r11;
    let n10 = p3 + n11;
    let r9 = d1 + r10;
    let n9 = d1 + n10;
    let r8 = p2b + r9;
    let n8 = p2b + n9;
    let r7 = c1 + r8;
    let n7 = x1 + n8;
    let r6 = p2a + r7;
    let n6 = p2a + n7;
    let r5 = e2 + r6;
    let n5 = e2 + n6;
    let r4 = p1 + r5;
    let n4 = p1 + n5;
    let r3 = e1 + r4;
    let n3 = e1 + n4;
    let r2 = p0b + r3;
    let n2 = p0b + n3;
    let r1 = c0 + r2;
    let n1 = x0 + n2;
    let r0 = p0a + r1;
    let n0 = p0a + n1;
    assert(replaced(r16, f, t) == n16) by {
        lemma_replaced_mismatch(p5, f, t, 11);
    }
    assert(replaced(r15, f, t) == n15) by {
        lemma_replaced_mismatch(d2, f, t, 6);
        lemma_no_straddle_right(d2, r16, f);
        lemma_replaced_step(d2, r16, f, t, d2, n16);
    }
    assert(replaced(r14, f, t) == n14) by {
        lemma_replaced_mismatch(p4b, f, t, 11);
        lemma_no_straddle_left(p4b, r15, f);
        lemma_replaced_step(p4b, r15, f, t, p4b, n15);
    }
    assert(replaced(r13, f, t) == n13) by {
        lemma_no_straddle_left(c2, r14, f);
        lemma_replaced_step(c2, r14, f, t, x2, n14);
    }
    assert(replaced(r12, f, t) == n12) by {
        lemma_replaced_mismatch(p4a, f, t, 11);
        lemma_no_straddle_left(p4a, r13, f);
        lemma_replaced_step(p4a, r13, f, t, p4a, n13);
    }
    assert(replaced(r11, f, t) == n11) by {
        lemma_replaced_mismatch(color, f, t, 6);
        lemma_no_straddle_quote(color, r12, f, 6);
        lemma_replaced_step(color, r12, f, t, color, n12);
    }
    assert(replaced(r10, f, t) == n10) by {
        lemma_replaced_mismatch(p3, f, t, 11);
        lemma_no_straddle_left(p3, r11, f);
        lemma_replaced_step(p3, r11, f, t, p3, n11);
    }
    assert(replaced(r9, f, t) == n9) by {
        lemma_replaced_mismatch(d1, f, t, 6);
        lemma_no_straddle_right(d1, r10, f);
        lemma_replaced_step(d1, r10, f, t, d1, n10);
    }
    assert(replaced(r8, f, t) == n8) by {
        lemma_replaced_mismatch(p2b, f, t, 11);
        lemma_no_straddle_left(p2b, r9, f);
        lemma_replaced_step(p2b, r9, f, t, p2b, n9);
    }
    assert(replaced(r7, f, t) == n7) by {
        lemma_no_straddle_left(c1, r8, f);
        lemma_replaced_step(c1, r8, f, t, x1, n8);
    }
    assert(replaced(r6, f, t) == n6) by {
        lemma_replaced_mismatch(p2a, f, t, 11);
        lemma_no_straddle_left(p2a, r7, f);
        lemma_replaced_step(p2a, r7, f, t, p2a, n7);
    }
    assert(replaced(r5, f, t) == n5) by {
        lemma_replaced_mismatch(e2, f, t, 6);
        lemma_no_straddle_right(e2, r6, f);
        lemma_replaced_step(e2, r6, f, t, e2, n6);
    }
    assert(replaced(r4, f, t) == n4) by {
        lemma_replaced_mismatch(p1, f, t, 11);
        lemma_no_straddle_left(p1, r5, f);
        lemma_replaced_step(p1, r5, f, t, p1, n5);
    }
    assert(replaced(r3, f, t) == n3) by {
        lemma_replaced_mismatch(e1, f, t, 6);
        lemma_no_straddle_quote(e1, r4, f, 6);
        lemma_replaced_step(e1, r4, f, t, e1, n4);
    }
    assert(replaced(r2, f, t) == n2) by {
        lemma_replaced_mismatch(p0b, f, t, 11);
        lemma_no_straddle_left(p0b, r3, f);
        lemma_replaced_step(p0b, r3, f, t, p0b, n3);
    }
    assert(replaced(r1, f, t) == n1) by {
        lemma_no_straddle_left(c0, r2, f);
        lemma_replaced_step(c0, r2, f, t, x0, n2);
    }
    assert(replaced(r0, f, t) == n0) by {
        lemma_replaced_mismatch(p0a, f, t, 11);
        lemma_no_straddle_left(p0a, r1, f);
        lemma_replaced_step(p0a, r1, f, t, p0a, n1);
    }
}

/// The class attributes of plain and of light-background bars: none can
/// begin near its end, and each plain class occurs in no other of them.
proof fn lemma_bar_class_attrs()
    ensures
        no_class_start_near_end(class_attr("bar-label"@)),
        no_class_start_near_end(class_attr("bar-track"@)),
        no_class_start_near_end(class_attr("bar-value"@)),
        no_class_start_near_end(class_attr("bar-label dark-label"@)),
        no_class_start_near_end(class_attr("bar-track light-track"@)),
        no_class_mismatch(class_attr("bar-track"@), class_attr("bar-label"@)),
        no_class_mismatch(class_attr("bar-value"@), class_attr("bar-label"@)),
        no_class_mismatch(class_attr("bar-label dark-label"@), class_attr("bar-track"@)),
        no_class_mismatch(class_attr("bar-value"@), class_attr("bar-track"@)),
        no_class_mismatch(class_attr("bar-label dark-label"@), class_attr("bar-value"@)),
        no_class_mismatch(class_attr("bar-track light-track"@), class_attr("bar-value"@)),
{
    reveal_strlit("class=\"");
    reveal_strlit("\"");
    reveal_strlit("bar-label");
    reveal_strlit("bar-track");
    reveal_strlit("bar-value");
    reveal_strlit("bar-label dark-label");
    reveal_strlit("bar-track light-track");
}

/// Replacing one plain bar class in a chart changes only what it makes of
/// each row's class attributes.
proof fn lemma_bar_rows_replaced(
    items: CountSeq,
    pcts: Seq<u32>,
    color: Seq<char>,
    c: (Seq<char>, Seq<char>, Seq<char>),
    d: (Seq<char>, Seq<char>, Seq<char>),
    f: Seq<char>,
    t: Seq<char>,
)
    requires
        is_plain_bar_class(f),
        forall|i: int| 0 <= i < color.len() ==> color[i] != '"',
        replaced(class_attr(c.0), f, t) == class_attr(d.0),
        replaced(class_attr(c.1), f, t) == class_attr(d.1),
        replaced(class_attr(c.2), f, t) == class_attr(d.2),
        no_class_start_near_end(class_attr(c.0)),
        no_class_start_near_end(class_attr(c.1)),
        no_class_start_near_end(class_attr(c.2)),
    ensures
        replaced(styled_bar_rows(items, pcts, color, c), f, t) == styled_bar_rows(items, pcts, color, d),
    decreases items.len(),
{
    if items.len() == 0 {
    } else {
        let before = styled_bar_rows(items.drop_last(), pcts, color, c);
        let (label, count) = items.last();
        let pct = pcts[items.len() - 1];
        let row = styled_bar_row(label, count, pct, color, c);
        lemma_bar_rows_replaced(items.drop_last(), pcts, color, c, d, f, t);
        lemma_bar_row_replaced(label, count, pct, color, c, d, f, t);
        lemma_bar_row_pieces(f);
        lemma_bar_row_nested(label, count, pct, color, c);
        lemma_no_straddle_right(before, row, f);
        lemma_replaced_concat(before, row, f, t);
    }
}

/// The chart for a light background (`render_bar_chart_dark`) is the chart
/// for a dark background (`render_bar_chart`) with `class="bar-label"`,
/// `class="bar-track"` and `class="bar-value"` replaced, in that order, by
/// `class="bar-label dark-label"`, `class="bar-track light-track"` and
/// `class="bar-value dark-label"`, for a color without '"'.
pub proof fn law_light_chart_restyles_dark(items: CountSeq, pcts: Seq<u32>, color: Seq<char>)
    requires
        forall|i: int| 0 <= i < color.len() ==> color[i] != '"',
    ensures
        bar_rows_html(items, pcts, color, true) == replaced(
            replaced(
                replaced(
                    bar_rows_html(items, pcts, color, false),
                    class_attr("bar-label"@),
                    class_attr("bar-label dark-label"@),
                ),
                class_attr("bar-track"@),
                class_attr("bar-track light-track"@),
            ),
            class_attr("bar-value"@),
            class_attr("bar-value dark-label"@),
        ),
{
    law_bar_chart_styles(items, pcts, color);
    lemma_bar_class_attrs();
    let l = "bar-label"@;
    let tr = "bar-track"@;
    let v = "bar-value"@;
    let ld = "bar-label dark-label"@;
    let tl = "bar-track light-track"@;
    let vd = "bar-value dark-label"@;
    lemma_bar_row_pieces(class_attr(l));
    lemma_bar_row_pieces(class_attr(tr));
    lemma_bar_row_pieces(class_attr(v));
    // first pass: the labels
    lemma_replaced_self(class_attr(l), class_attr(ld));
    lemma_replaced_mismatch(class_attr(tr), class_attr(l), class_attr(ld), 11);
    lemma_replaced_mismatch(class_attr(v), class_attr(l), class_attr(ld), 11);
    lemma_bar_rows_replaced(items, pcts, color, (l, tr, v), (ld, tr, v), class_attr(l), class_attr(ld));
    // second pass: the tracks
    lemma_replaced_mismatch(class_attr(ld), class_attr(tr), class_attr(tl), 11);
    lemma_replaced_self(class_attr(tr), class_attr(tl));
    lemma_replaced_mismatch(class_attr(v), class_attr(tr), class_attr(tl), 11);
    lemma_bar_rows_replaced(items, pcts, color, (ld, tr, v), (ld, tl, v), class_attr(tr), class_attr(tl));
    // third pass: the values
    lemma_replaced_mismatch(class_attr(ld), class_attr(v), class_attr(vd), 11);
    lemma_replaced_mismatch(class_attr(tl), class_attr(v), class_attr(vd), 11);
    lemma_replaced_self(class_attr(v), class_attr(vd));
    lemma_bar_rows_replaced(items, pcts, color, (ld, tl, v), (ld, tl, vd), class_attr(v), class_attr(vd));
}

/// A shortened label is at most `max` characters long, and a label that
/// fits is kept as it is.
pub proof fn law_truncated_fits(s: Seq<char>, max: nat)
    requires
        max > 0,
    ensures
        truncated(s, max).len() <= max,
        s.len() <= max ==> truncated(s, max) == s,
{
    reveal_strlit("…");
}

/// The order `sort_counts` sorts by, as a value.
pub open spec fn count_order() -> spec_fn((Seq<char>, nat), (Seq<char>, nat)) -> bool {
    |a: (Seq<char>, nat), b: (Seq<char>, nat)| a.1 > b.1
}

proof fn lemma_insert_count(r: CountSeq, x: (Seq<char>, nat))
    ensures
        insert_count(r, x) == insert_by(r, x, count_order()),
    decreases r.len(),
{
    if r.len() > 0 {
        lemma_insert_count(r.drop_first(), x);
    }
}

proof fn lemma_sort_counts(s: CountSeq)
    ensures
        sort_counts(s) == sort_by(s, count_order()),
    decreases s.len(),
{
    if s.len() > 0 {
        lemma_sort_counts(s.drop_last());
        lemma_insert_count(sort_counts(s.drop_last()), s.last());
    }
}

/// A chart shows at most 10 bars, largest count first, each an entry of the
/// table; no bar's count exceeds the count that fills a whole bar.
pub proof fn law_bar_items(m: CountSeq)
    ensures
        bar_items(m).len() <= 10,
        forall|i: int, j: int|
            0 <= i < j < bar_items(m).len() ==> (#[trigger] bar_items(m)[i]).1 >= (
            #[trigger] bar_items(m)[j]).1,
        forall|i: int| 0 <= i < bar_items(m).len() ==> m.contains(#[trigger] bar_items(m)[i]),
        forall|i: int|
            0 <= i < bar_items(m).len() ==> (#[trigger] bar_items(m)[i]).1 <= bar_scale_of(
                bar_items(m),
            ),
{
    lemma_sort_counts(m);
    lemma_sort_by(m, count_order());
    let s = sort_counts(m);
    let b = bar_items(m);
    assert forall|i: int, j: int| 0 <= i < j < b.len() implies (#[trigger] b[i]).1 >= (
    #[trigger] b[j]).1 by {
        assert(b[i] == s[i] && b[j] == s[j]);
        assert(!count_order()(s[j], s[i]));
    }
    assert forall|i: int| 0 <= i < b.len() implies m.contains(#[trigger] b[i]) by {
        assert(b[i] == s[i]);
        assert(s.contains(s[i]));
        vstd::seq_lib::to_multiset_contains(s, s[i]);
        vstd::seq_lib::to_multiset_contains(m, s[i]);
    }
    assert forall|i: int| 0 <= i < b.len() implies (#[trigger] b[i]).1 <= bar_scale_of(b) by {
        if i > 0 {
            assert(b[0].1 >= b[i].1);
        }
    }
}

/// The issue cards and the folded entries together are all the issues, in
/// order; there are at most three cards.
pub proof fn law_issue_sections(s: Seq<IssueView>)
    ensures
        top_part(s) + minor_part(s) == s,
        top_part(s).len() <= 3,
{
    if s.len() > 3 {
        assert(s.take(3) + s.skip(3) =~= s);
    } else {
        assert(s + Seq::<IssueView>::empty() =~= s);
    }
}

} // verus!
