//! Turning what the logs and the configuration tell into a list of issues,
//! most severe first.
use vstd::prelude::*;
use crate::counter::lookup;
use crate::config::{ConfigReport, ConfigView};
use crate::logs::{LogReport, LogView};
use crate::text::{decimal, owned, push_decimal};
use crate::sorting::{insert_by, sort_by, sorted_by, strict_order, lemma_sort_by};

verus! {

/// How serious an issue is; earlier variants are more serious.
#[derive(Debug, PartialEq, Eq, Structural, PartialOrd, Ord, Clone, Copy)]
pub enum Severity {
    Critical,
    Warning,
    Info,
}

/// The display name of a severity.
pub open spec fn severity_label(s: Severity) -> Seq<char> {
    match s {
        Severity::Critical => "严重"@,
        Severity::Warning => "警告"@,
        Severity::Info => "提示"@,
    }
}

/// The display color of a severity.
pub open spec fn severity_color(s: Severity) -> Seq<char> {
    match s {
        Severity::Critical => "#ef4444"@,
        Severity::Warning => "#f59e0b"@,
        Severity::Info => "#3b82f6"@,
    }
}

/// The position of a severity in the order of seriousness.
pub open spec fn severity_rank(s: Severity) -> nat {
    match s {
        Severity::Critical => 0,
        Severity::Warning => 1,
        Severity::Info => 2,
    }
}

impl Severity {
    /// The display name.
    pub fn label(&self) -> (r: &'static str)
        ensures
            r@ == severity_label(*self),
    {
        match self {
            Severity::Critical => "严重",
            Severity::Warning => "警告",
            Severity::Info => "提示",
        }
    }

    /// The display color.
    pub fn color(&self) -> (r: &'static str)
        ensures
            r@ == severity_color(*self),
    {
        match self {
            Severity::Critical => "#ef4444",
            Severity::Warning => "#f59e0b",
            Severity::Info => "#3b82f6",
        }
    }

    /// The position in the order of seriousness.
    pub fn rank(&self) -> (r: u8)
        ensures
            r == severity_rank(*self),
    {
        match self {
            Severity::Critical => 0,
            Severity::Warning => 1,
            Severity::Info => 2,
        }
    }
}

/// A problem found, with what to do about it.
pub struct Issue {
    pub severity: Severity,
    pub title: String,
    pub description: String,
    /// the steps to take, one per line
    pub solution: String,
    pub count: usize,
}

/// The mathematical content of an `Issue`.
pub struct IssueView {
    pub severity: Severity,
    pub title: Seq<char>,
    pub description: Seq<char>,
    pub solution: Seq<char>,
    pub count: nat,
}

impl View for Issue {
    type V = IssueView;

    open spec fn view(&self) -> IssueView {
        IssueView {
            severity: self.severity,
            title: self.title@,
            description: self.description@,
            solution: self.solution@,
            count: self.count as nat,
        }
    }
}

/// The views of a list of issues.
pub open spec fn issues_view(v: Seq<Issue>) -> Seq<IssueView> {
    Seq::new(v.len(), |i: int| v[i]@)
}

/// `before`, the decimal form of `count`, then `after`.
fn counted_text(before: &str, count: usize, after: &str) -> (r: String)
    ensures
        r@ == before@ + decimal(count as nat) + after@,
{
    let mut r = owned(before);
    push_decimal(&mut r, count as u64);
    r.append(after);
    r
}

/// The issue raised when StashLink restarted more than 5 times.
pub open spec fn stashlink_issue(c: nat) -> IssueView {
    IssueView {
        severity: Severity::Critical,
        title: "StashLink 频繁崩溃 ("@ + decimal(c) + " 次)"@,
        description: "StashLink 服务在日志期间崩溃并重启了 "@ + decimal(c) + " 次。这是 Stash 的内网穿透/局域网代理功能，频繁崩溃意味着该功能基本不可用。可能是 underlying proxy 配置为空或所选节点不稳定导致。"@,
        solution: "1. 在 Stash 设置中检查 StashLink 的 underlying proxy 是否已正确选择一个可用节点\n2. 如果不使用 StashLink 功能，建议关闭它以减少资源消耗和日志噪音\n3. 若需要此功能，切换到更稳定的节点（如高级 IEPL 专线）"@,
        count: c,
    }
}

/// The issue raised when UDP NAT detection failed more than 10 times.
pub open spec fn nat_failure_issue(c: nat) -> IssueView {
    IssueView {
        severity: Severity::Critical,
        title: "UDP NAT 检测大量失败 ("@ + decimal(c) + " 次)"@,
        description: "NAT 类型检测失败了 "@ + decimal(c) + " 次，通常伴随 StashLink 崩溃出现。这表明 UDP 通道不稳定，可能影响游戏加速、语音通话等实时应用。"@,
        solution: "1. 确认当前节点支持 UDP 转发（配置中 udp: true 已启用）\n2. 检查本地防火墙是否放行了 UDP 端口\n3. 尝试切换到不同的服务器节点测试 UDP 连通性"@,
        count: c,
    }
}

/// The issue raised when a proxy group found no usable node.
pub open spec fn no_proxy_issue(c: nat) -> IssueView {
    IssueView {
        severity: Severity::Critical,
        title: "代理组缺少可用节点"@,
        description: "有 "@ + decimal(c) + " 次日志记录显示代理组找不到可用的代理节点，直接回退到 DIRECT 直连。这意味着在这些时段，你的翻墙完全失效了。"@,
        solution: "1. 检查 proxy-groups 中的 PROXY 组是否关联了有效节点\n2. 确认订阅是否过期或节点是否全部下线\n3. 手动更新订阅: Stash → 配置 → 更新订阅"@,
        count: c,
    }
}

/// The issue raised when the default network interface was lost more than 3 times.
pub open spec fn interface_lost_issue(c: nat) -> IssueView {
    IssueView {
        severity: Severity::Warning,
        title: "网络接口频繁丢失 ("@ + decimal(c) + " 次)"@,
        description: "默认网络接口（通常是 Wi-Fi en0）多次丢失，可能导致短暂断网。这通常发生在睡眠唤醒、切换 Wi-Fi 网络、或 VPN 重连时。"@,
        solution: "1. 这通常是 macOS 网络切换的正常现象，不需要特别处理\n2. 如果频繁发生，检查 Wi-Fi 信号稳定性\n3. 确认没有其他 VPN 软件与 Stash 冲突"@,
        count: c,
    }
}

/// The issue raised for TLS connection failures.
pub open spec fn tls_error_issue(c: nat) -> IssueView {
    IssueView {
        severity: Severity::Warning,
        title: "TLS 连接错误 ("@ + decimal(c) + " 次)"@,
        description: "与 app-analytics-services.com 的 TLS 握手失败。这是 Stash 内置的 Google Analytics 遥测请求被代理规则拦截导致的。"@,
        solution: "1. 这是一个无害的错误，不影响代理功能\n2. 可以在规则中添加 DOMAIN,app-analytics-services.com,DIRECT 来消除此错误"@,
        count: c,
    }
}

/// The issue raised for request timeouts.
pub open spec fn request_timeout_issue(c: nat) -> IssueView {
    IssueView {
        severity: Severity::Warning,
        title: "网络请求超时 ("@ + decimal(c) + " 次)"@,
        description: "多次发生网络请求超时，目标同样是 analytics 服务。表明代理链路对某些 HTTPS 请求的处理存在延迟。"@,
        solution: "1. 检查代理节点延迟，切换到更快的节点\n2. 在规则中将 analytics 域名设为 DIRECT 直连"@,
        count: c,
    }
}

/// The issue raised when more than 10 nodes share one cipher and one password.
pub open spec fn shared_secret_issue(c: nat) -> IssueView {
    IssueView {
        severity: Severity::Info,
        title: "所有节点使用相同密码和加密方式"@,
        description: "全部 "@ + decimal(c) + " 个节点使用相同的 cipher (aes-128-gcm) 和同一密码。这是机场订阅的正常配置，但意味着一旦密码泄露，所有节点都会受影响。"@,
        solution: "1. 定期在机场面板更换密码/token\n2. 不要将订阅链接分享给他人"@,
        count: c,
    }
}

/// The issue raised when IPv6 is off.
pub open spec fn ipv6_disabled_issue(c: nat) -> IssueView {
    IssueView {
        severity: Severity::Info,
        title: "IPv6 已禁用"@,
        description: "当前配置禁用了 IPv6。在某些网络环境下，启用 IPv6 可能改善连接速度。但大多数代理场景下禁用是合理的。"@,
        solution: "如果你的 ISP 支持 IPv6 且节点也支持，可以在配置中启用 ipv6: true"@,
        count: c,
    }
}

/// The issue raised when the rule list is empty.
pub open spec fn no_rules_issue(c: nat) -> IssueView {
    IssueView {
        severity: Severity::Warning,
        title: "规则列表为空"@,
        description: "未检测到分流规则，所有流量可能走同一出口（取决于 mode 配置）。当前模式为 rule 但规则数为 0，可能是解析问题或配置遗漏。"@,
        solution: "1. 检查 config.yaml 中 rules 部分是否正常\n2. 建议使用成熟的规则集（如 blackmatrix7 分流规则）"@,
        count: c,
    }
}

fn stashlink_issue_exec(count: usize) -> (r: Issue)
    ensures
        r@ == stashlink_issue(count as nat),
{
    Issue {
        severity: Severity::Critical,
        title: counted_text("StashLink 频繁崩溃 (", count, " 次)"),
        description: counted_text("StashLink 服务在日志期间崩溃并重启了 ", count, " 次。这是 Stash 的内网穿透/局域网代理功能，频繁崩溃意味着该功能基本不可用。可能是 underlying proxy 配置为空或所选节点不稳定导致。"),
        solution: owned("1. 在 Stash 设置中检查 StashLink 的 underlying proxy 是否已正确选择一个可用节点\n2. 如果不使用 StashLink 功能，建议关闭它以减少资源消耗和日志噪音\n3. 若需要此功能，切换到更稳定的节点（如高级 IEPL 专线）"),
        count,
    }
}

fn nat_failure_issue_exec(count: usize) -> (r: Issue)
    ensures
        r@ == nat_failure_issue(count as nat),
{
    Issue {
        severity: Severity::Critical,
        title: counted_text("UDP NAT 检测大量失败 (", count, " 次)"),
        description: counted_text("NAT 类型检测失败了 ", count, " 次，通常伴随 StashLink 崩溃出现。这表明 UDP 通道不稳定，可能影响游戏加速、语音通话等实时应用。"),
        solution: owned("1. 确认当前节点支持 UDP 转发（配置中 udp: true 已启用）\n2. 检查本地防火墙是否放行了 UDP 端口\n3. 尝试切换到不同的服务器节点测试 UDP 连通性"),
        count,
    }
}

fn no_proxy_issue_exec(count: usize) -> (r: Issue)
    ensures
        r@ == no_proxy_issue(count as nat),
{
    Issue {
        severity: Severity::Critical,
        title: owned("代理组缺少可用节点"),
        description: counted_text("有 ", count, " 次日志记录显示代理组找不到可用的代理节点，直接回退到 DIRECT 直连。这意味着在这些时段，你的翻墙完全失效了。"),
        solution: owned("1. 检查 proxy-groups 中的 PROXY 组是否关联了有效节点\n2. 确认订阅是否过期或节点是否全部下线\n3. 手动更新订阅: Stash → 配置 → 更新订阅"),
        count,
    }
}

fn interface_lost_issue_exec(count: usize) -> (r: Issue)
    ensures
        r@ == interface_lost_issue(count as nat),
{
    Issue {
        severity: Severity::Warning,
        title: counted_text("网络接口频繁丢失 (", count, " 次)"),
        description: owned("默认网络接口（通常是 Wi-Fi en0）多次丢失，可能导致短暂断网。这通常发生在睡眠唤醒、切换 Wi-Fi 网络、或 VPN 重连时。"),
        solution: owned("1. 这通常是 macOS 网络切换的正常现象，不需要特别处理\n2. 如果频繁发生，检查 Wi-Fi 信号稳定性\n3. 确认没有其他 VPN 软件与 Stash 冲突"),
        count,
    }
}

fn tls_error_issue_exec(count: usize) -> (r: Issue)
    ensures
        r@ == tls_error_issue(count as nat),
{
    Issue {
        severity: Severity::Warning,
        title: counted_text("TLS 连接错误 (", count, " 次)"),
        description: owned("与 app-analytics-services.com 的 TLS 握手失败。这是 Stash 内置的 Google Analytics 遥测请求被代理规则拦截导致的。"),
        solution: owned("1. 这是一个无害的错误，不影响代理功能\n2. 可以在规则中添加 DOMAIN,app-analytics-services.com,DIRECT 来消除此错误"),
        count,
    }
}

fn request_timeout_issue_exec(count: usize) -> (r: Issue)
    ensures
        r@ == request_timeout_issue(count as nat),
{
    Issue {
        severity: Severity::Warning,
        title: counted_text("网络请求超时 (", count, " 次)"),
        description: owned("多次发生网络请求超时，目标同样是 analytics 服务。表明代理链路对某些 HTTPS 请求的处理存在延迟。"),
        solution: owned("1. 检查代理节点延迟，切换到更快的节点\n2. 在规则中将 analytics 域名设为 DIRECT 直连"),
        count,
    }
}

fn shared_secret_issue_exec(count: usize) -> (r: Issue)
    ensures
        r@ == shared_secret_issue(count as nat),
{
    Issue {
        severity: Severity::Info,
        title: owned("所有节点使用相同密码和加密方式"),
        description: counted_text("全部 ", count, " 个节点使用相同的 cipher (aes-128-gcm) 和同一密码。这是机场订阅的正常配置，但意味着一旦密码泄露，所有节点都会受影响。"),
        solution: owned("1. 定期在机场面板更换密码/token\n2. 不要将订阅链接分享给他人"),
        count,
    }
}

fn ipv6_disabled_issue_exec(count: usize) -> (r: Issue)
    ensures
        r@ == ipv6_disabled_issue(count as nat),
{
    Issue {
        severity: Severity::Info,
        title: owned("IPv6 已禁用"),
        description: owned("当前配置禁用了 IPv6。在某些网络环境下，启用 IPv6 可能改善连接速度。但大多数代理场景下禁用是合理的。"),
        solution: owned("如果你的 ISP 支持 IPv6 且节点也支持，可以在配置中启用 ipv6: true"),
        count,
    }
}

fn no_rules_issue_exec(count: usize) -> (r: Issue)
    ensures
        r@ == no_rules_issue(count as nat),
{
    Issue {
        severity: Severity::Warning,
        title: owned("规则列表为空"),
        description: owned("未检测到分流规则，所有流量可能走同一出口（取决于 mode 配置）。当前模式为 rule 但规则数为 0，可能是解析问题或配置遗漏。"),
        solution: owned("1. 检查 config.yaml 中 rules 部分是否正常\n2. 建议使用成熟的规则集（如 blackmatrix7 分流规则）"),
        count,
    }
}

/// `s` with `x` appended when `cond` holds.
pub open spec fn push_if(s: Seq<IssueView>, cond: bool, x: IssueView) -> Seq<IssueView> {
    if cond {
        s.push(x)
    } else {
        s
    }
}

/// The issues found, in the order they are checked: those the error
/// patterns reveal (some only past a threshold), then those of the
/// configuration.
pub open spec fn candidate_issues(logs: LogView, config: ConfigView) -> Seq<IssueView> {
    let s6 = log_issues(logs);
    let s7 = push_if(
        s6,
        config.single_cipher && config.single_password && config.proxy_count > 10,
        shared_secret_issue(config.proxy_count),
    );
    let s8 = push_if(s7, !config.ipv6, ipv6_disabled_issue(0));
    push_if(s8, config.rule_count == 0, no_rules_issue(0))
}

/// The issues the error patterns reveal, in the order they are checked
/// (some only past a threshold).
pub open spec fn log_issues(logs: LogView) -> Seq<IssueView> {
    let p = logs.error_patterns;
    let s1 = match lookup(p, "StashLink 服务崩溃重启"@) {
        Some(c) => push_if(Seq::empty(), c > 5, stashlink_issue(c)),
        None => Seq::empty(),
    };
    let s2 = match lookup(p, "NAT 类型检测失败 (UDP)"@) {
        Some(c) => push_if(s1, c > 10, nat_failure_issue(c)),
        None => s1,
    };
    let s3 = match lookup(p, "代理组无可用节点"@) {
        Some(c) => s2.push(no_proxy_issue(c)),
        None => s2,
    };
    let s4 = match lookup(p, "默认网络接口丢失"@) {
        Some(c) => push_if(s3, c > 3, interface_lost_issue(c)),
        None => s3,
    };
    let s5 = match lookup(p, "TLS 安全连接失败 (-1200)"@) {
        Some(c) => s4.push(tls_error_issue(c)),
        None => s4,
    };
    match lookup(p, "网络请求超时 (NSURLErrorDomain -1001)"@) {
        Some(c) => s5.push(request_timeout_issue(c)),
        None => s5,
    }
}

/// `a` comes strictly before `b`: more serious, or as serious with a
/// larger count.
pub open spec fn issue_before(a: IssueView, b: IssueView) -> bool {
    ||| severity_rank(a.severity) < severity_rank(b.severity)
    ||| (severity_rank(a.severity) == severity_rank(b.severity) && a.count > b.count)
}

/// `x` inserted into `r` before the first issue it comes strictly before.
pub open spec fn insert_issue(r: Seq<IssueView>, x: IssueView) -> Seq<IssueView>
    decreases r.len(),
{
    if r.len() == 0 {
        seq![x]
    } else if issue_before(x, r[0]) {
        seq![x] + r
    } else {
        seq![r[0]] + insert_issue(r.drop_first(), x)
    }
}

/// `s` sorted by insertion: most serious first, then by count, largest
/// first; issues that tie keep their order.
pub open spec fn sort_issues(s: Seq<IssueView>) -> Seq<IssueView>
    decreases s.len(),
{
    if s.len() == 0 {
        s
    } else {
        insert_issue(sort_issues(s.drop_last()), s.last())
    }
}

fn issue_before_exec(a: &Issue, b: &Issue) -> (r: bool)
    ensures
        r == issue_before(a@, b@),
{
    let ra = a.severity.rank();
    let rb = b.severity.rank();
    ra < rb || (ra == rb && a.count > b.count)
}

/// The issues `v`, most serious first, then by count, largest first.
pub fn sort_by_severity(v: Vec<Issue>) -> (r: Vec<Issue>)
    ensures
        issues_view(r@) == sort_issues(issues_view(v@)),
{
    let ghost all = issues_view(v@);
    let n = v.len();
    let mut src = v;
    let mut r: Vec<Issue> = Vec::new();
    let mut i: usize = 0;
    assert(all.take(0) =~= Seq::<IssueView>::empty());
    assert(issues_view(r@) =~= Seq::<IssueView>::empty());
    while i < n
        invariant
            i <= n,
            all.len() == n,
            src@.len() == n - i,
            forall|j: int| 0 <= j < n - i ==> #[trigger] src@[j]@ == all[i + j],
            issues_view(r@) == sort_issues(all.take(i as int)),
        decreases n - i,
    {
        let ghost before = issues_view(r@);
        let x = src.remove(0);
        assert(x@ == all[i as int]);
        let mut k: usize = 0;
        assert(before.skip(0) =~= before);
        assert(before.take(0) + insert_issue(before.skip(0), x@) =~= insert_issue(before, x@));
        while k < r.len() && !issue_before_exec(&x, &r[k])
            invariant
                k <= r@.len(),
                before == issues_view(r@),
                insert_issue(before, x@) == before.take(k as int) + insert_issue(
                    before.skip(k as int),
                    x@,
                ),
            decreases r@.len() - k,
        {
            assert(before.skip(k as int)[0] == before[k as int]);
            assert(before.skip(k as int).drop_first() =~= before.skip(k + 1));
            assert(before.take(k + 1) =~= before.take(k as int) + seq![before[k as int]]);
            k = k + 1;
        }
        proof {
            if k < r@.len() {
                assert(before.skip(k as int)[0] == before[k as int]);
                assert(insert_issue(before.skip(k as int), x@) == seq![x@] + before.skip(k as int));
            } else {
                assert(before.skip(k as int) =~= Seq::<IssueView>::empty());
            }
        }
        r.insert(k, x);
        assert(issues_view(r@) =~= insert_issue(before, x@));
        assert(all.take(i + 1).drop_last() =~= all.take(i as int));
        i = i + 1;
    }
    assert(all.take(n as int) =~= all);
    r
}

/// Appends `x` to `v` when `cond` holds.
fn push_issue_if(v: &mut Vec<Issue>, cond: bool, x: Issue)
    ensures
        issues_view(final(v)@) == push_if(issues_view(old(v)@), cond, x@),
{
    if cond {
        v.push(x);
        assert(issues_view(v@) =~= issues_view(old(v)@).push(x@));
    }
}

/// The issues that the logs and the configuration reveal, most serious
/// first, then by count, largest first.
pub fn diagnose(logs: &LogReport, config: &ConfigReport) -> (r: Vec<Issue>)
    ensures
        issues_view(r@) == sort_issues(candidate_issues(logs@, config@)),
{
    let p = &logs.error_patterns;
    let mut v: Vec<Issue> = Vec::new();
    assert(issues_view(v@) =~= Seq::<IssueView>::empty());
    match p.get("StashLink 服务崩溃重启") {
        Some(c) => push_issue_if(&mut v, c > 5, stashlink_issue_exec(c)),
        None => {},
    }
    match p.get("NAT 类型检测失败 (UDP)") {
        Some(c) => push_issue_if(&mut v, c > 10, nat_failure_issue_exec(c)),
        None => {},
    }
    match p.get("代理组无可用节点") {
        Some(c) => push_issue_if(&mut v, true, no_proxy_issue_exec(c)),
        None => {},
    }
    match p.get("默认网络接口丢失") {
        Some(c) => push_issue_if(&mut v, c > 3, interface_lost_issue_exec(c)),
        None => {},
    }
    match p.get("TLS 安全连接失败 (-1200)") {
        Some(c) => push_issue_if(&mut v, true, tls_error_issue_exec(c)),
        None => {},
    }
    match p.get("网络请求超时 (NSURLErrorDomain -1001)") {
        Some(c) => push_issue_if(&mut v, true, request_timeout_issue_exec(c)),
        None => {},
    }
    push_issue_if(
        &mut v,
        config.single_cipher && config.single_password && config.proxy_count > 10,
        shared_secret_issue_exec(config.proxy_count),
    );
    push_issue_if(&mut v, !config.ipv6, ipv6_disabled_issue_exec(0));
    push_issue_if(&mut v, config.rule_count == 0, no_rules_issue_exec(0));
    sort_by_severity(v)
}

/// How many of `s` are problems (not mere information).
pub open spec fn problems(s: Seq<IssueView>) -> nat
    decreases s.len(),
{
    if s.len() == 0 {
        0
    } else {
        problems(s.drop_last()) + if s.last().severity != Severity::Info {
            1nat
        } else {
            0nat
        }
    }
}

/// How many of the issues are problems (not mere information).
pub fn problem_count(issues: &Vec<Issue>) -> (n: usize)
    ensures
        n == problems(issues_view(issues@)),
{
    let ghost all = issues_view(issues@);
    let mut n: usize = 0;
    let mut i: usize = 0;
    assert(all.take(0) =~= Seq::<IssueView>::empty());
    while i < issues.len()
        invariant
            i <= issues@.len(),
            all == issues_view(issues@),
            n == problems(all.take(i as int)),
            n <= i,
        decreases issues@.len() - i,
    {
        assert(all.take(i + 1).drop_last() =~= all.take(i as int));
        match issues[i].severity {
            Severity::Info => {},
            _ => {
                n = n + 1;
            },
        }
        i = i + 1;
    }
    assert(all.take(all.len() as int) =~= all);
    n
}
/// The order `sort_issues` sorts by, as a value.
pub open spec fn issue_order() -> spec_fn(IssueView, IssueView) -> bool {
    |a: IssueView, b: IssueView| issue_before(a, b)
}

proof fn lemma_insert_issue(r: Seq<IssueView>, x: IssueView)
    ensures
        insert_issue(r, x) == insert_by(r, x, issue_order()),
    decreases r.len(),
{
    if r.len() > 0 {
        lemma_insert_issue(r.drop_first(), x);
    }
}

proof fn lemma_sort_issues(s: Seq<IssueView>)
    ensures
        sort_issues(s) == sort_by(s, issue_order()),
    decreases s.len(),
{
    if s.len() > 0 {
        lemma_sort_issues(s.drop_last());
        lemma_insert_issue(sort_issues(s.drop_last()), s.last());
    }
}

/// `diagnose` lists the issues most serious first and, within a severity,
/// by count, largest first; it lists each issue found exactly once.
pub proof fn law_issues_ordered(logs: LogView, config: ConfigView)
    ensures
        forall|i: int, j: int|
            0 <= i < j < sort_issues(candidate_issues(logs, config)).len() ==> {
                let a = #[trigger] sort_issues(candidate_issues(logs, config))[i];
                let b = #[trigger] sort_issues(candidate_issues(logs, config))[j];
                ||| severity_rank(a.severity) < severity_rank(b.severity)
                ||| (severity_rank(a.severity) == severity_rank(b.severity) && a.count >= b.count)
            },
        sort_issues(candidate_issues(logs, config)).to_multiset() == candidate_issues(
            logs,
            config,
        ).to_multiset(),
{
    let c = candidate_issues(logs, config);
    lemma_sort_issues(c);
    assert(strict_order(issue_order()));
    lemma_sort_by(c, issue_order());
    let r = sort_issues(c);
    assert forall|i: int, j: int| 0 <= i < j < r.len() implies {
        let a = #[trigger] r[i];
        let b = #[trigger] r[j];
        ||| severity_rank(a.severity) < severity_rank(b.severity)
        ||| (severity_rank(a.severity) == severity_rank(b.severity) && a.count >= b.count)
    } by {
        assert(!issue_order()(r[j], r[i]));
    }
}

/// The problems among the issues are at most all of them, so the rest
/// (mere information) can be counted by subtraction.
pub proof fn law_problems_bounded(s: Seq<IssueView>)
    ensures
        problems(s) <= s.len(),
    decreases s.len(),
{
    if s.len() > 0 {
        law_problems_bounded(s.drop_last());
    }
}

/// Every issue of `s` has a title other than `t`.
pub open spec fn title_absent(s: Seq<IssueView>, t: Seq<char>) -> bool {
    forall|j: int| 0 <= j < s.len() ==> #[trigger] s[j].title != t
}

/// Appending an issue of another title keeps a title absent.
proof fn lemma_title_absent_push(s: Seq<IssueView>, b: bool, x: IssueView, t: Seq<char>)
    requires
        title_absent(s, t),
        x.title != t,
    ensures
        title_absent(push_if(s, b, x), t),
{
    if b {
        assert forall|j: int| 0 <= j < s.push(x).len() implies #[trigger] s.push(x)[j].title != t by {
            if j < s.len() {
                assert(s.push(x)[j] == s[j]);
            }
        }
    }
}

/// A text whose first character differs from the first of `t` is not `t`.
proof fn lemma_first_char_differs(a: Seq<char>, t: Seq<char>)
    requires
        a.len() > 0,
        t.len() > 0,
        a[0] != t[0],
    ensures
        a != t,
{
}

/// An issue occurs among the sorted issues exactly when it occurs among
/// those found.
proof fn lemma_sorted_contains(logs: LogView, config: ConfigView, x: IssueView)
    ensures
        sort_issues(candidate_issues(logs, config)).contains(x) <==> candidate_issues(
            logs,
            config,
        ).contains(x),
{
    broadcast use vstd::seq_lib::group_to_multiset_ensures;
    law_issues_ordered(logs, config);
    let c = candidate_issues(logs, config);
    assert(sort_issues(c).to_multiset().count(x) == c.to_multiset().count(x));
}

/// The titles of the issues other than the shared-secret one differ from its title.
proof fn lemma_other_titles()
    ensures
        forall|c: nat| #[trigger] stashlink_issue(c).title != "所有节点使用相同密码和加密方式"@,
        forall|c: nat| #[trigger] nat_failure_issue(c).title != "所有节点使用相同密码和加密方式"@,
        forall|c: nat| #[trigger] no_proxy_issue(c).title != "所有节点使用相同密码和加密方式"@,
        forall|c: nat| #[trigger] interface_lost_issue(c).title != "所有节点使用相同密码和加密方式"@,
        forall|c: nat| #[trigger] tls_error_issue(c).title != "所有节点使用相同密码和加密方式"@,
        forall|c: nat| #[trigger] request_timeout_issue(c).title != "所有节点使用相同密码和加密方式"@,
        ipv6_disabled_issue(0).title != "所有节点使用相同密码和加密方式"@,
        no_rules_issue(0).title != "所有节点使用相同密码和加密方式"@,
{
    let t = "所有节点使用相同密码和加密方式"@;
    reveal_strlit("所有节点使用相同密码和加密方式");
    reveal_strlit("StashLink 频繁崩溃 (");
    reveal_strlit("UDP NAT 检测大量失败 (");
    reveal_strlit("代理组缺少可用节点");
    reveal_strlit("网络接口频繁丢失 (");
    reveal_strlit("TLS 连接错误 (");
    reveal_strlit("网络请求超时 (");
    reveal_strlit("IPv6 已禁用");
    reveal_strlit("规则列表为空");
    // the titles of the other issues begin otherwise
    assert forall|c: nat| #[trigger] stashlink_issue(c).title != t by {
        lemma_first_char_differs(stashlink_issue(c).title, t);
    }
    assert forall|c: nat| #[trigger] nat_failure_issue(c).title != t by {
        lemma_first_char_differs(nat_failure_issue(c).title, t);
    }
    assert forall|c: nat| #[trigger] no_proxy_issue(c).title != t by {
        lemma_first_char_differs(no_proxy_issue(c).title, t);
    }
    assert forall|c: nat| #[trigger] interface_lost_issue(c).title != t by {
        lemma_first_char_differs(interface_lost_issue(c).title, t);
    }
    assert forall|c: nat| #[trigger] tls_error_issue(c).title != t by {
        lemma_first_char_differs(tls_error_issue(c).title, t);
    }
    assert forall|c: nat| #[trigger] request_timeout_issue(c).title != t by {
        lemma_first_char_differs(request_timeout_issue(c).title, t);
    }
    assert(ipv6_disabled_issue(0).title != t) by {
        lemma_first_char_differs(ipv6_disabled_issue(0).title, t);
    }
    assert(no_rules_issue(0).title != t) by {
        lemma_first_char_differs(no_rules_issue(0).title, t);
    }
}

/// No issue the error patterns reveal has the shared-secret title.
proof fn lemma_log_issue_titles(logs: LogView)
    ensures
        title_absent(log_issues(logs), "所有节点使用相同密码和加密方式"@),
{
    let t = "所有节点使用相同密码和加密方式"@;
    lemma_other_titles();
    // follow `candidate_issues` step by step
    let p = logs.error_patterns;
    let s0 = Seq::<IssueView>::empty();
    let s1 = match lookup(p, "StashLink 服务崩溃重启"@) {
        Some(c) => push_if(s0, c > 5, stashlink_issue(c)),
        None => s0,
    };
    let s2 = match lookup(p, "NAT 类型检测失败 (UDP)"@) {
        Some(c) => push_if(s1, c > 10, nat_failure_issue(c)),
        None => s1,
    };
    let s3 = match lookup(p, "代理组无可用节点"@) {
        Some(c) => s2.push(no_proxy_issue(c)),
        None => s2,
    };
    let s4 = match lookup(p, "默认网络接口丢失"@) {
        Some(c) => push_if(s3, c > 3, interface_lost_issue(c)),
        None => s3,
    };
    let s5 = match lookup(p, "TLS 安全连接失败 (-1200)"@) {
        Some(c) => s4.push(tls_error_issue(c)),
        None => s4,
    };
    let s6 = match lookup(p, "网络请求超时 (NSURLErrorDomain -1001)"@) {
        Some(c) => s5.push(request_timeout_issue(c)),
        None => s5,
    };
    assert(title_absent(s0, t));
    match lookup(p, "StashLink 服务崩溃重启"@) {
        Some(c) => lemma_title_absent_push(s0, c > 5, stashlink_issue(c), t),
        None => {},
    }
    match lookup(p, "NAT 类型检测失败 (UDP)"@) {
        Some(c) => lemma_title_absent_push(s1, c > 10, nat_failure_issue(c), t),
        None => {},
    }
    match lookup(p, "代理组无可用节点"@) {
        Some(c) => lemma_title_absent_push(s2, true, no_proxy_issue(c), t),
        None => {},
    }
    match lookup(p, "默认网络接口丢失"@) {
        Some(c) => lemma_title_absent_push(s3, c > 3, interface_lost_issue(c), t),
        None => {},
    }
    match lookup(p, "TLS 安全连接失败 (-1200)"@) {
        Some(c) => lemma_title_absent_push(s4, true, tls_error_issue(c), t),
        None => {},
    }
    match lookup(p, "网络请求超时 (NSURLErrorDomain -1001)"@) {
        Some(c) => lemma_title_absent_push(s5, true, request_timeout_issue(c), t),
        None => {},
    }
    assert(title_absent(s6, t));
    assert(s6 == log_issues(logs));
}

/// Among the issues found, the shared-secret title marks exactly the
/// shared-secret issue, which is found exactly when its condition holds.
proof fn lemma_shared_secret_found(logs: LogView, config: ConfigView)
    ensures
        forall|j: int|
            0 <= j < candidate_issues(logs, config).len() && (#[trigger] candidate_issues(
                logs,
                config,
            )[j]).title == "所有节点使用相同密码和加密方式"@ ==> candidate_issues(logs, config)[j]
                == shared_secret_issue(config.proxy_count) && config.single_cipher
                && config.single_password && config.proxy_count > 10,
        (config.single_cipher && config.single_password && config.proxy_count > 10)
            ==> candidate_issues(logs, config).contains(shared_secret_issue(config.proxy_count)),
{
    let t = "所有节点使用相同密码和加密方式"@;
    let cond = config.single_cipher && config.single_password && config.proxy_count > 10;
    let x = shared_secret_issue(config.proxy_count);
    lemma_other_titles();
    lemma_log_issue_titles(logs);
    let s6 = log_issues(logs);
    assert(title_absent(s6, t));
    let s7 = push_if(s6, cond, x);
    let s8 = push_if(s7, !config.ipv6, ipv6_disabled_issue(0));
    let c = push_if(s8, config.rule_count == 0, no_rules_issue(0));
    assert(c == candidate_issues(logs, config));
    // in the found issues, the title marks exactly the shared-secret issue
    assert forall|j: int| 0 <= j < c.len() && #[trigger] c[j].title == t implies c[j] == x && cond by {
        if j < s6.len() {
            assert(c[j] == s6[j]);
            assert(s6[j].title != t);
        } else if cond && j == s6.len() {
            assert(c[j] == x);
        } else if j < s8.len() {
            assert(c[j] == ipv6_disabled_issue(0));
        } else {
            assert(c[j] == no_rules_issue(0));
        }
    }
    if cond {
        assert(c[s6.len() as int] == x);
        assert(c.contains(x));
    }
}

/// The issue about one cipher and one password shared by all nodes is raised
/// exactly when the configuration has a single cipher, a single password
/// and more than 10 nodes; it is informational and counts the nodes.
pub proof fn law_shared_secret_issue(logs: LogView, config: ConfigView)
    ensures
        (exists|i: int|
            0 <= i < sort_issues(candidate_issues(logs, config)).len() && (#[trigger] sort_issues(
                candidate_issues(logs, config),
            )[i]).title == "所有节点使用相同密码和加密方式"@) <==> (config.single_cipher
            && config.single_password && config.proxy_count > 10),
        forall|i: int|
            0 <= i < sort_issues(candidate_issues(logs, config)).len() && (#[trigger] sort_issues(
                candidate_issues(logs, config),
            )[i]).title == "所有节点使用相同密码和加密方式"@ ==> sort_issues(
                candidate_issues(logs, config),
            )[i].severity == Severity::Info && sort_issues(candidate_issues(logs, config))[i].count
                == config.proxy_count,
{
    let t = "所有节点使用相同密码和加密方式"@;
    let cond = config.single_cipher && config.single_password && config.proxy_count > 10;
    let x = shared_secret_issue(config.proxy_count);
    let c = candidate_issues(logs, config);
    lemma_shared_secret_found(logs, config);
    let r = sort_issues(c);
    lemma_sorted_contains(logs, config, x);
    assert forall|i: int| 0 <= i < r.len() && (#[trigger] r[i]).title == t implies r[i] == x && cond by {
        lemma_sorted_contains(logs, config, r[i]);
        assert(r.contains(r[i]));
        let j = choose|j: int| 0 <= j < c.len() && c[j] == r[i];
        assert(c[j].title == t);
    }
    if cond {
        let i = choose|i: int| 0 <= i < r.len() && r[i] == x;
        assert(r[i].title == t);
    }
}

/// What `push_if` adds to a list of issues.
proof fn lemma_push_if_contains(s: Seq<IssueView>, b: bool, y: IssueView, x: IssueView)
    ensures
        push_if(s, b, y).contains(x) <==> s.contains(x) || (b && x == y),
{
    if b {
        if s.push(y).contains(x) {
            let i = choose|i: int| 0 <= i < s.push(y).len() && s.push(y)[i] == x;
            if i < s.len() {
                assert(s[i] == x);
            }
        }
        if s.contains(x) {
            let i = choose|i: int| 0 <= i < s.len() && s[i] == x;
            assert(s.push(y)[i] == x);
        }
        assert(s.push(y)[s.len() as int] == y);
    }
}

/// Which issues the error patterns reveal, each with its threshold.
proof fn lemma_log_issues_contain(logs: LogView, x: IssueView)
    ensures
        log_issues(logs).contains(x) <==> {
            let p = logs.error_patterns;
            ||| (lookup(p, "StashLink 服务崩溃重启"@) matches Some(c) && c > 5 && x == stashlink_issue(c))
            ||| (lookup(p, "NAT 类型检测失败 (UDP)"@) matches Some(c) && c > 10 && x == nat_failure_issue(c))
            ||| (lookup(p, "代理组无可用节点"@) matches Some(c) && x == no_proxy_issue(c))
            ||| (lookup(p, "默认网络接口丢失"@) matches Some(c) && c > 3 && x == interface_lost_issue(c))
            ||| (lookup(p, "TLS 安全连接失败 (-1200)"@) matches Some(c) && x == tls_error_issue(c))
            ||| (lookup(p, "网络请求超时 (NSURLErrorDomain -1001)"@) matches Some(c) && x
                == request_timeout_issue(c))
        },
{
    let p = logs.error_patterns;
    let s0 = Seq::<IssueView>::empty();
    let s1 = match lookup(p, "StashLink 服务崩溃重启"@) {
        Some(c) => push_if(s0, c > 5, stashlink_issue(c)),
        None => s0,
    };
    let s2 = match lookup(p, "NAT 类型检测失败 (UDP)"@) {
        Some(c) => push_if(s1, c > 10, nat_failure_issue(c)),
        None => s1,
    };
    let s3 = match lookup(p, "代理组无可用节点"@) {
        Some(c) => s2.push(no_proxy_issue(c)),
        None => s2,
    };
    let s4 = match lookup(p, "默认网络接口丢失"@) {
        Some(c) => push_if(s3, c > 3, interface_lost_issue(c)),
        None => s3,
    };
    let s5 = match lookup(p, "TLS 安全连接失败 (-1200)"@) {
        Some(c) => s4.push(tls_error_issue(c)),
        None => s4,
    };
    let s6 = match lookup(p, "网络请求超时 (NSURLErrorDomain -1001)"@) {
        Some(c) => s5.push(request_timeout_issue(c)),
        None => s5,
    };
    assert(s6 == log_issues(logs));
    assert(!s0.contains(x));
    match lookup(p, "StashLink 服务崩溃重启"@) {
        Some(c) => lemma_push_if_contains(s0, c > 5, stashlink_issue(c), x),
        None => {},
    }
    match lookup(p, "NAT 类型检测失败 (UDP)"@) {
        Some(c) => lemma_push_if_contains(s1, c > 10, nat_failure_issue(c), x),
        None => {},
    }
    match lookup(p, "代理组无可用节点"@) {
        Some(c) => lemma_push_if_contains(s2, true, no_proxy_issue(c), x),
        None => {},
    }
    match lookup(p, "默认网络接口丢失"@) {
        Some(c) => lemma_push_if_contains(s3, c > 3, interface_lost_issue(c), x),
        None => {},
    }
    match lookup(p, "TLS 安全连接失败 (-1200)"@) {
        Some(c) => lemma_push_if_contains(s4, true, tls_error_issue(c), x),
        None => {},
    }
    match lookup(p, "网络请求超时 (NSURLErrorDomain -1001)"@) {
        Some(c) => lemma_push_if_contains(s5, true, request_timeout_issue(c), x),
        None => {},
    }
}

/// The issues `diagnose` reports are exactly these, each at most once
/// found: StashLink crashes counted more than 5 times; NAT detection
/// failures more than 10 times; any proxy group without a usable node; the
/// default interface lost more than 3 times; any TLS failure; any request
/// timeout; one cipher and one password shared by more than 10 nodes; IPv6
/// off; no rules.
pub proof fn law_issues_found(logs: LogView, config: ConfigView, x: IssueView)
    ensures
        sort_issues(candidate_issues(logs, config)).contains(x) <==> {
            let p = logs.error_patterns;
            ||| (lookup(p, "StashLink 服务崩溃重启"@) matches Some(c) && c > 5 && x == stashlink_issue(c))
            ||| (lookup(p, "NAT 类型检测失败 (UDP)"@) matches Some(c) && c > 10 && x == nat_failure_issue(c))
            ||| (lookup(p, "代理组无可用节点"@) matches Some(c) && x == no_proxy_issue(c))
            ||| (lookup(p, "默认网络接口丢失"@) matches Some(c) && c > 3 && x == interface_lost_issue(c))
            ||| (lookup(p, "TLS 安全连接失败 (-1200)"@) matches Some(c) && x == tls_error_issue(c))
            ||| (lookup(p, "网络请求超时 (NSURLErrorDomain -1001)"@) matches Some(c) && x
                == request_timeout_issue(c))
            ||| (config.single_cipher && config.single_password && config.proxy_count > 10 && x
                == shared_secret_issue(config.proxy_count))
            ||| (!config.ipv6 && x == ipv6_disabled_issue(0))
            ||| (config.rule_count == 0 && x == no_rules_issue(0))
        },
{
    let s6 = log_issues(logs);
    let cond = config.single_cipher && config.single_password && config.proxy_count > 10;
    let s7 = push_if(s6, cond, shared_secret_issue(config.proxy_count));
    let s8 = push_if(s7, !config.ipv6, ipv6_disabled_issue(0));
    lemma_log_issues_contain(logs, x);
    lemma_push_if_contains(s6, cond, shared_secret_issue(config.proxy_count), x);
    lemma_push_if_contains(s7, !config.ipv6, ipv6_disabled_issue(0), x);
    lemma_push_if_contains(s8, config.rule_count == 0, no_rules_issue(0), x);
    lemma_sorted_contains(logs, config, x);
}

} // verus!
