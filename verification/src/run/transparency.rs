//! The footer that tells which tools a reply used and what was recalled from memory.
use vstd::prelude::*;
use crate::config::GatewayChannelKind;
use crate::dispatch::{CallView, ToolExecutionResult, ToolExecutionStatus};
use crate::dispatch;
use crate::text;

verus! {

/// How the footer is written.
#[derive(Debug, Clone, Copy, PartialEq, Eq, Structural)]
pub enum TransparencyRenderStyle {
    PlainFooter,
    DiscordSubtext,
}

/// How many facts were recalled.
#[derive(Debug, Clone, Copy, PartialEq, Eq, Structural)]
pub struct MemoryTransparencySummary {
    pub short_hits: usize,
    pub long_hits: usize,
}

/// How the calls of one tool ended.
#[derive(Debug, Clone, PartialEq, Eq)]
pub struct ToolSummaryGroup {
    pub name: String,
    pub ok: usize,
    pub accepted: usize,
    pub err: usize,
}

/// What the footer tells.
#[derive(Debug, Clone, PartialEq, Eq)]
pub struct TransparencySummary {
    pub tool_groups: Vec<ToolSummaryGroup>,
    pub memory_hits: Option<MemoryTransparencySummary>,
}

/// What a group says.
pub struct GroupView {
    pub name: Seq<char>,
    pub ok: nat,
    pub accepted: nat,
    pub err: nat,
}

impl View for ToolSummaryGroup {
    type V = GroupView;

    open spec fn view(&self) -> GroupView {
        GroupView {
            name: self.name@,
            ok: self.ok as nat,
            accepted: self.accepted as nat,
            err: self.err as nat,
        }
    }
}

/// What a list of groups says.
pub open spec fn group_views(groups: Seq<ToolSummaryGroup>) -> Seq<GroupView> {
    Seq::new(groups.len(), |i: int| groups[i]@)
}

/// The names of the tools called, each once, in the order of their first calls.
pub open spec fn first_seen(calls: Seq<CallView>) -> Seq<Seq<char>>
    decreases calls.len(),
{
    if calls.len() == 0 {
        Seq::empty()
    } else {
        let before = first_seen(calls.drop_last());
        if before.contains(calls.last().name) {
            before
        } else {
            before.push(calls.last().name)
        }
    }
}

/// How many calls of the tool called `name` ended with `status`.
pub open spec fn count(calls: Seq<CallView>, name: Seq<char>, status: ToolExecutionStatus) -> nat
    decreases calls.len(),
{
    if calls.len() == 0 {
        0
    } else {
        count(calls.drop_last(), name, status) + if calls.last().name == name
            && calls.last().status == status {
            1nat
        } else {
            0nat
        }
    }
}

/// How the calls of the tool called `name` ended.
pub open spec fn group_of(calls: Seq<CallView>, name: Seq<char>) -> GroupView {
    GroupView {
        name,
        ok: count(calls, name, ToolExecutionStatus::Success),
        accepted: count(calls, name, ToolExecutionStatus::Accepted),
        err: count(calls, name, ToolExecutionStatus::ToolError),
    }
}

/// The calls grouped by tool, in the order of first calls.
pub open spec fn groups_of(calls: Seq<CallView>) -> Seq<GroupView> {
    Seq::new(first_seen(calls).len(), |i: int| group_of(calls, first_seen(calls)[i]))
}

/// How many calls the groups tell of.
pub open spec fn total(groups: Seq<GroupView>) -> nat
    decreases groups.len(),
{
    if groups.len() == 0 {
        0
    } else {
        total(groups.drop_last()) + groups.last().ok + groups.last().accepted + groups.last().err
    }
}

/// Each name is listed once.
proof fn lemma_first_seen_once(calls: Seq<CallView>)
    ensures
        forall|i: int, j: int|
            0 <= i < j < first_seen(calls).len() ==> first_seen(calls)[i] != first_seen(calls)[j],
    decreases calls.len(),
{
    if calls.len() > 0 {
        let before = first_seen(calls.drop_last());
        lemma_first_seen_once(calls.drop_last());
        assert forall|i: int| 0 <= i < before.len() implies before.contains(#[trigger] before[i]) by {}
    }
}

/// A tool that was not called has no calls counted.
proof fn lemma_unseen(calls: Seq<CallView>, name: Seq<char>)
    requires
        !first_seen(calls).contains(name),
    ensures
        group_of(calls, name) == (GroupView { name, ok: 0, accepted: 0, err: 0 }),
    decreases calls.len(),
{
    if calls.len() > 0 {
        let before = first_seen(calls.drop_last());
        if before.contains(name) {
            let i = choose|i: int| 0 <= i < before.len() && before[i] == name;
            assert(first_seen(calls)[i] == name);
        }
        if calls.last().name == name {
            if !before.contains(name) {
                assert(first_seen(calls).last() == name);
            }
        }
        lemma_unseen(calls.drop_last(), name);
    }
}

/// One call more adds one to the group of its tool and nothing to others.
proof fn lemma_total_step(names: Seq<Seq<char>>, calls: Seq<CallView>)
    requires
        calls.len() > 0,
        forall|i: int, j: int| 0 <= i < j < names.len() ==> names[i] != names[j],
    ensures
        total(Seq::new(names.len(), |i: int| group_of(calls, names[i]))) == total(
            Seq::new(names.len(), |i: int| group_of(calls.drop_last(), names[i])),
        ) + if names.contains(calls.last().name) {
            1nat
        } else {
            0nat
        },
    decreases names.len(),
{
    let now = Seq::new(names.len(), |i: int| group_of(calls, names[i]));
    let then = Seq::new(names.len(), |i: int| group_of(calls.drop_last(), names[i]));
    if names.len() > 0 {
        let front = names.drop_last();
        lemma_total_step(front, calls);
        assert(now.drop_last() =~= Seq::new(front.len(), |i: int| group_of(calls, front[i])));
        assert(then.drop_last() =~= Seq::new(
            front.len(),
            |i: int| group_of(calls.drop_last(), front[i]),
        ));
        let name = calls.last().name;
        if names.last() == name {
            assert(names.contains(name));
            if front.contains(name) {
                let i = choose|i: int| 0 <= i < front.len() && front[i] == name;
                assert(names[i] == names.last());
            }
        } else if names.contains(name) {
            let i = choose|i: int| 0 <= i < names.len() && names[i] == name;
            assert(front[i] == name);
        } else if front.contains(name) {
            let i = choose|i: int| 0 <= i < front.len() && front[i] == name;
            assert(names[i] == name);
        }
    }
}

/// Every call is told of in exactly one group: the counts add up to the number of calls.
pub proof fn law_groups_count_every_call(calls: Seq<CallView>)
    ensures
        total(groups_of(calls)) == calls.len(),
    decreases calls.len(),
{
    if calls.len() > 0 {
        let front = calls.drop_last();
        let names = first_seen(front);
        law_groups_count_every_call(front);
        lemma_first_seen_once(front);
        lemma_total_step(names, calls);
        let carried = Seq::new(names.len(), |i: int| group_of(calls, names[i]));
        assert(Seq::new(names.len(), |i: int| group_of(front, names[i])) =~= groups_of(front));
        if names.contains(calls.last().name) {
            assert(carried =~= groups_of(calls));
        } else {
            lemma_unseen(front, calls.last().name);
            assert(groups_of(calls).drop_last() =~= carried);
        }
    }
}

/// The calls that references lead to.
pub open spec fn own_calls(calls: Seq<&ToolExecutionResult>) -> Seq<CallView> {
    Seq::new(calls.len(), |i: int| calls[i].own())
}

/// Appends the call itself, then the calls that it made, each with its own.
pub fn append_flattened<'a>(call: &'a ToolExecutionResult, out: &mut Vec<&'a ToolExecutionResult>)
    ensures
        own_calls(final(out)@) == own_calls(old(out)@) + dispatch::flatten(*call),
    decreases call,
{
    let ghost start = own_calls(out@);
    out.push(call);
    proof {
        assert(own_calls(out@) =~= start.push(call.own()));
        assert(dispatch::flatten_all(call.nested_tool_calls@.take(0)) =~= Seq::<CallView>::empty());
    }
    let mut i: usize = 0;
    while i < call.nested_tool_calls.len()
        invariant
            i <= call.nested_tool_calls@.len(),
            own_calls(out@) == start.push(call.own()) + dispatch::flatten_all(
                call.nested_tool_calls@.take(i as int),
            ),
        decreases call.nested_tool_calls@.len() - i,
    {
        assert(decreases_to!(call => call.nested_tool_calls@[i as int]));
        append_flattened(&call.nested_tool_calls[i], out);
        i = i + 1;
        proof {
            let now = call.nested_tool_calls@.take(i as int);
            assert(now.drop_last() =~= call.nested_tool_calls@.take(i - 1));
            assert(own_calls(out@) =~= start.push(call.own()) + dispatch::flatten_all(now));
        }
    }
    proof {
        assert(call.nested_tool_calls@.take(i as int) =~= call.nested_tool_calls@);
        assert(own_calls(out@) =~= start + dispatch::flatten(*call));
    }
}

/// The calls one after another, each followed by the calls that it made.
pub fn flatten_tool_calls(tool_calls: &[ToolExecutionResult]) -> (r: Vec<&ToolExecutionResult>)
    ensures
        own_calls(r@) == dispatch::flatten_all(tool_calls@),
{
    let mut flattened: Vec<&ToolExecutionResult> = Vec::new();
    let mut i: usize = 0;
    assert(own_calls(flattened@) =~= dispatch::flatten_all(tool_calls@.take(0)));
    while i < tool_calls.len()
        invariant
            i <= tool_calls@.len(),
            own_calls(flattened@) == dispatch::flatten_all(tool_calls@.take(i as int)),
        decreases tool_calls@.len() - i,
    {
        append_flattened(&tool_calls[i], &mut flattened);
        i = i + 1;
        assert(tool_calls@.take(i as int).drop_last() =~= tool_calls@.take(i - 1));
    }
    assert(tool_calls@.take(i as int) =~= tool_calls@);
    flattened
}

/// No more calls are counted than there are.
proof fn lemma_count_bounded(calls: Seq<CallView>, name: Seq<char>, status: ToolExecutionStatus)
    ensures
        count(calls, name, status) <= calls.len(),
    decreases calls.len(),
{
    if calls.len() > 0 {
        lemma_count_bounded(calls.drop_last(), name, status);
    }
}

/// The calls grouped by tool, in the order of first calls.
pub fn tool_summary_groups(tool_calls: &[ToolExecutionResult]) -> (r: Vec<ToolSummaryGroup>)
    ensures
        group_views(r@) == groups_of(dispatch::flatten_all(tool_calls@)),
{
    let flattened = flatten_tool_calls(tool_calls);
    let ghost calls = own_calls(flattened@);
    let mut groups: Vec<ToolSummaryGroup> = Vec::new();
    let mut i: usize = 0;
    assert(group_views(groups@) =~= groups_of(calls.take(0)));
    while i < flattened.len()
        invariant
            i <= flattened@.len(),
            calls == own_calls(flattened@),
            group_views(groups@) == groups_of(calls.take(i as int)),
        decreases flattened@.len() - i,
    {
        let call = flattened[i];
        let ghost before = calls.take(i as int);
        let ghost now = calls.take(i + 1);
        let ghost names = first_seen(before);
        proof {
            assert(now.drop_last() =~= before);
            assert(now.last() == call.own());
            lemma_first_seen_once(before);
            assert(group_views(groups@).len() == groups_of(before).len());
            assert forall|k: int| 0 <= k < names.len() implies (#[trigger] groups@[k])@ == group_of(
                before,
                names[k],
            ) by {
                assert(group_views(groups@)[k] == groups_of(before)[k]);
            }
        }
        let mut slot: usize = 0;
        while slot < groups.len() && !text::same_text(
            groups[slot].name.as_str(),
            call.name.as_str(),
        )
            invariant
                slot <= groups@.len(),
                forall|k: int| 0 <= k < slot ==> (#[trigger] groups@[k]).name@ != call.name@,
            decreases groups@.len() - slot,
        {
            slot = slot + 1;
        }
        if slot == groups.len() {
            proof {
                if names.contains(call.name@) {
                    let k = choose|k: int| 0 <= k < names.len() && names[k] == call.name@;
                    assert(groups@[k].name@ == call.name@);
                }
                lemma_unseen(before, call.name@);
            }
            groups.push(ToolSummaryGroup { name: call.name.clone(), ok: 0, accepted: 0, err: 0 });
        } else {
            proof {
                assert(groups@[slot as int].name@ == names[slot as int]);
                assert(names.contains(call.name@));
            }
        }
        let ghost listed = groups@;
        let old_group = &groups[slot];
        let mut ok: usize = old_group.ok;
        let mut accepted: usize = old_group.accepted;
        let mut err: usize = old_group.err;
        proof {
            lemma_count_bounded(before, call.name@, ToolExecutionStatus::Success);
            lemma_count_bounded(before, call.name@, ToolExecutionStatus::Accepted);
            lemma_count_bounded(before, call.name@, ToolExecutionStatus::ToolError);
            assert(listed[slot as int]@ == group_of(before, call.name@));
        }
        match call.status {
            ToolExecutionStatus::Success => {
                ok = ok + 1;
            },
            ToolExecutionStatus::Accepted => {
                accepted = accepted + 1;
            },
            ToolExecutionStatus::ToolError => {
                err = err + 1;
            },
        }
        groups.set(slot, ToolSummaryGroup { name: call.name.clone(), ok, accepted, err });
        proof {
            let after = first_seen(now);
            assert(groups@.len() == after.len());
            assert(after[slot as int] == call.name@);
            assert forall|k: int| 0 <= k < after.len() implies (#[trigger] groups@[k])@ == group_of(
                now,
                after[k],
            ) by {
                if k != slot {
                    assert(k < names.len());
                    assert(after[k] == names[k]);
                    assert(after[k] != call.name@) by {
                        lemma_first_seen_once(now);
                    }
                }
            }
            assert(group_views(groups@) =~= groups_of(now));
        }
        i = i + 1;
    }
    assert(calls.take(i as int) =~= calls);
    groups
}

/// A count behind its label, between quotes of the style.
pub open spec fn chip(quote: Seq<char>, label: Seq<char>, n: nat) -> Seq<char> {
    quote + label + text::decimal(n) + quote
}

/// The counts of a group that are not zero.
pub open spec fn chips(group: GroupView, quote: Seq<char>) -> Seq<Seq<char>> {
    let none = Seq::<Seq<char>>::empty();
    let ok = if group.ok > 0 {
        none.push(chip(quote, "ok×"@, group.ok))
    } else {
        none
    };
    let accepted = if group.accepted > 0 {
        ok.push(chip(quote, "accepted×"@, group.accepted))
    } else {
        ok
    };
    if group.err > 0 {
        accepted.push(chip(quote, "err×"@, group.err))
    } else {
        accepted
    }
}

/// A group in brackets.
pub open spec fn group_text(group: GroupView, quote: Seq<char>) -> Seq<char> {
    "["@ + group.name + " "@ + text::join(chips(group, quote), " "@) + "]"@
}

/// The groups one after another behind the heading.
pub open spec fn groups_text(heading: Seq<char>, groups: Seq<GroupView>, quote: Seq<char>) -> Seq<
    char,
> {
    if groups.len() == 0 {
        heading + "[none]"@
    } else {
        heading + text::join(
            Seq::new(groups.len(), |i: int| group_text(groups[i], quote)),
            " "@,
        )
    }
}

/// A count behind its label, between quotes of the style.
fn chip_of(quote: &str, label: &str, n: usize) -> (r: String)
    ensures
        r@ == chip(quote@, label@, n as nat),
{
    let mut out = text::concat3(quote, label, text::decimal_of(n as u64).as_str());
    out.append(quote);
    out
}

/// A group in brackets.
fn group_text_of(group: &ToolSummaryGroup, quote: &str) -> (r: String)
    ensures
        r@ == group_text(group@, quote@),
{
    let mut parts: Vec<String> = Vec::new();
    let ghost mut listed = Seq::<Seq<char>>::empty();
    if group.ok > 0 {
        parts.push(chip_of(quote, "ok×", group.ok));
        proof {
            listed = listed.push(chip(quote@, "ok×"@, group.ok as nat));
        }
    }
    if group.accepted > 0 {
        parts.push(chip_of(quote, "accepted×", group.accepted));
        proof {
            listed = listed.push(chip(quote@, "accepted×"@, group.accepted as nat));
        }
    }
    if group.err > 0 {
        parts.push(chip_of(quote, "err×", group.err));
        proof {
            listed = listed.push(chip(quote@, "err×"@, group.err as nat));
        }
    }
    assert(text::views(parts@) =~= listed);
    let mut out = text::concat3("[", group.name.as_str(), " ");
    out.append(text::joined(&parts, " ").as_str());
    out.append("]");
    out
}

/// The groups one after another behind the heading.
fn groups_text_of(heading: &str, groups: &[ToolSummaryGroup], quote: &str) -> (r: String)
    ensures
        r@ == groups_text(heading@, group_views(groups@), quote@),
{
    if groups.len() == 0 {
        return text::concat2(heading, "[none]");
    }
    let ghost whole = Seq::new(
        groups@.len(),
        |k: int| group_text(group_views(groups@)[k], quote@),
    );
    let mut parts: Vec<String> = Vec::new();
    let mut i: usize = 0;
    while i < groups.len()
        invariant
            i <= groups@.len(),
            whole == Seq::new(groups@.len(), |k: int| group_text(group_views(groups@)[k], quote@)),
            text::views(parts@) == whole.take(i as int),
        decreases groups@.len() - i,
    {
        let ghost before = text::views(parts@);
        let part = group_text_of(&groups[i], quote);
        parts.push(part);
        i = i + 1;
        assert(text::views(parts@) =~= before.push(part@));
        assert(whole.take(i as int) =~= whole.take(i - 1).push(whole[i - 1]));
    }
    assert(whole.take(i as int) =~= whole);
    text::concat2(heading, text::joined(&parts, " ").as_str())
}

/// The groups as plain text.
pub fn format_tool_summary_plain(groups: &[ToolSummaryGroup]) -> (r: String)
    ensures
        r@ == groups_text("tools: "@, group_views(groups@), ""@),
{
    groups_text_of("tools: ", groups, "")
}

/// The groups for Discord.
pub fn format_tool_summary_discord(groups: &[ToolSummaryGroup]) -> (r: String)
    ensures
        r@ == groups_text("tools "@, group_views(groups@), "`"@),
{
    groups_text_of("tools ", groups, "`")
}

/// The style of a channel.
pub fn style_for_channel(kind: GatewayChannelKind) -> (r: Option<TransparencyRenderStyle>)
    ensures
        r == Some(TransparencyRenderStyle::DiscordSubtext),
{
    match kind {
        GatewayChannelKind::Discord => Some(TransparencyRenderStyle::DiscordSubtext),
    }
}

impl TransparencySummary {
    /// Whether there is nothing to tell.
    pub open spec fn empty(self) -> bool {
        self.tool_groups@.len() == 0 && self.memory_hits is None
    }

    /// Whether there is nothing to tell.
    pub fn is_empty(&self) -> (r: bool)
        ensures
            r == self.empty(),
    {
        self.tool_groups.len() == 0 && self.memory_hits.is_none()
    }
}

/// What is to be told: of tools where that is on and some were called, of memory where that is
/// on and was used.
pub fn transparency_summary(
    tool_calls: &[ToolExecutionResult],
    tool_calls_enabled: bool,
    memory_recall_enabled: bool,
    memory_recall_used: bool,
    memory_recall_short_hits: usize,
    memory_recall_long_hits: usize,
) -> (r: TransparencySummary)
    ensures
        group_views(r.tool_groups@) == (if tool_calls_enabled {
            groups_of(dispatch::flatten_all(tool_calls@))
        } else {
            Seq::empty()
        }),
        r.memory_hits == (if memory_recall_enabled && memory_recall_used {
            Some(
                MemoryTransparencySummary {
                    short_hits: memory_recall_short_hits,
                    long_hits: memory_recall_long_hits,
                },
            )
        } else {
            None
        }),
{
    let mut tool_groups: Vec<ToolSummaryGroup> = Vec::new();
    if tool_calls_enabled && tool_calls.len() > 0 {
        tool_groups = tool_summary_groups(tool_calls);
    } else {
        proof {
            if tool_calls@.len() == 0 {
                assert(dispatch::flatten_all(tool_calls@) =~= Seq::<CallView>::empty());
            }
            assert(group_views(tool_groups@) =~= Seq::<GroupView>::empty());
            assert(groups_of(Seq::<CallView>::empty()) =~= Seq::<GroupView>::empty());
        }
    }
    let memory_hits = if memory_recall_enabled && memory_recall_used {
        Some(
            MemoryTransparencySummary {
                short_hits: memory_recall_short_hits,
                long_hits: memory_recall_long_hits,
            },
        )
    } else {
        None
    };
    TransparencySummary { tool_groups, memory_hits }
}

/// A text with each underscore escaped.
pub open spec fn escaped(line: Seq<char>) -> Seq<char> {
    text::replace(line, "_"@, "\\_"@)
}

/// The line with each underscore escaped.
pub fn escape_discord_subtext(line: &str) -> (r: String)
    ensures
        r@ == escaped(line@),
{
    proof {
        reveal_strlit("_");
    }
    text::replaced(line, "_", "\\_")
}

/// The parts of the footer: tools, then memory.
pub open spec fn footer_parts(
    groups: Seq<GroupView>,
    hits: Option<MemoryTransparencySummary>,
    style: TransparencyRenderStyle,
) -> Seq<Seq<char>> {
    let none = Seq::<Seq<char>>::empty();
    let tools = if groups.len() > 0 {
        none.push(
            match style {
                TransparencyRenderStyle::PlainFooter => groups_text("tools: "@, groups, ""@),
                TransparencyRenderStyle::DiscordSubtext => groups_text("tools "@, groups, "`"@),
            },
        )
    } else {
        none
    };
    match hits {
        Some(hits) => tools.push(
            match style {
                TransparencyRenderStyle::PlainFooter => "recall: short="@ + text::decimal(
                    hits.short_hits as nat,
                ) + " long="@ + text::decimal(hits.long_hits as nat),
                TransparencyRenderStyle::DiscordSubtext => "recall `short="@ + text::decimal(
                    hits.short_hits as nat,
                ) + " long="@ + text::decimal(hits.long_hits as nat) + "`"@,
            },
        ),
        None => tools,
    }
}

/// The reply with the footer, where there is anything to tell.
pub open spec fn with_footer(
    reply: Seq<char>,
    groups: Seq<GroupView>,
    hits: Option<MemoryTransparencySummary>,
    style: TransparencyRenderStyle,
) -> Seq<char> {
    if groups.len() == 0 && hits is None {
        reply
    } else {
        match style {
            TransparencyRenderStyle::PlainFooter => reply + "\n---\n"@ + text::join(
                footer_parts(groups, hits, style),
                " | "@,
            ),
            TransparencyRenderStyle::DiscordSubtext => reply + "\n-# "@ + escaped(
                text::join(footer_parts(groups, hits, style), " • "@),
            ),
        }
    }
}

/// The reply with the footer in the given style, where there is anything to tell.
pub fn render_for_style(
    reply: &str,
    summary: &TransparencySummary,
    style: TransparencyRenderStyle,
) -> (r: String)
    ensures
        r@ == with_footer(reply@, group_views(summary.tool_groups@), summary.memory_hits, style),
{
    if summary.is_empty() {
        return reply.to_owned();
    }
    let plain = match style {
        TransparencyRenderStyle::PlainFooter => true,
        TransparencyRenderStyle::DiscordSubtext => false,
    };
    let mut parts: Vec<String> = Vec::new();
    let ghost mut listed = Seq::<Seq<char>>::empty();
    if summary.tool_groups.len() > 0 {
        let part = if plain {
            format_tool_summary_plain(summary.tool_groups.as_slice())
        } else {
            format_tool_summary_discord(summary.tool_groups.as_slice())
        };
        proof {
            listed = listed.push(part@);
        }
        parts.push(part);
    }
    if let Some(hits) = summary.memory_hits {
        let mut part = if plain {
            "recall: short=".to_owned()
        } else {
            "recall `short=".to_owned()
        };
        part.append(text::decimal_of(hits.short_hits as u64).as_str());
        part.append(" long=");
        part.append(text::decimal_of(hits.long_hits as u64).as_str());
        if !plain {
            part.append("`");
        }
        proof {
            listed = listed.push(part@);
        }
        parts.push(part);
    }
    proof {
        assert(text::views(parts@) =~= listed);
        assert(listed == footer_parts(
            group_views(summary.tool_groups@),
            summary.memory_hits,
            style,
        ));
    }
    if plain {
        text::concat3(reply, "\n---\n", text::joined(&parts, " | ").as_str())
    } else {
        let subtext = escape_discord_subtext(text::joined(&parts, " • ").as_str());
        text::concat3(reply, "\n-# ", subtext.as_str())
    }
}

/// The reply with the footer of its channel, where there is anything to tell.
pub fn render_tool_call_transparency(
    reply: &str,
    tool_calls: &[ToolExecutionResult],
    tool_calls_enabled: bool,
    memory_recall_enabled: bool,
    memory_recall_used: bool,
    memory_recall_short_hits: usize,
    memory_recall_long_hits: usize,
    channel_kind: GatewayChannelKind,
) -> (r: String)
    ensures
        r@ == with_footer(
            reply@,
            if tool_calls_enabled {
                groups_of(dispatch::flatten_all(tool_calls@))
            } else {
                Seq::empty()
            },
            if memory_recall_enabled && memory_recall_used {
                Some(
                    (MemoryTransparencySummary {
                        short_hits: memory_recall_short_hits,
                        long_hits: memory_recall_long_hits,
                    }),
                )
            } else {
                None
            },
            TransparencyRenderStyle::DiscordSubtext,
        ),
{
    let summary = transparency_summary(
        tool_calls,
        tool_calls_enabled,
        memory_recall_enabled,
        memory_recall_used,
        memory_recall_short_hits,
        memory_recall_long_hits,
    );
    let style = match style_for_channel(channel_kind) {
        Some(style) => style,
        None => TransparencyRenderStyle::PlainFooter,
    };
    render_for_style(reply, &summary, style)
}

/// The reply stays what it is; the footer only follows it.
pub proof fn law_reply_comes_first(
    reply: Seq<char>,
    groups: Seq<GroupView>,
    hits: Option<MemoryTransparencySummary>,
    style: TransparencyRenderStyle,
)
    ensures
        text::starts_with(with_footer(reply, groups, hits, style), reply),
{
    let whole = with_footer(reply, groups, hits, style);
    assert(whole.subrange(0, reply.len() as int) =~= reply);
}

/// Calls are counted by their name and their status: each adds one to its own count and none to
/// another, and the counts of two lists add up.
pub proof fn law_counts_add_up(
    first: Seq<CallView>,
    second: Seq<CallView>,
    call: CallView,
    name: Seq<char>,
    status: ToolExecutionStatus,
)
    ensures
        count(first + second, name, status) == count(first, name, status) + count(
            second,
            name,
            status,
        ),
        count(seq![call], name, status) == if call.name == name && call.status == status {
            1nat
        } else {
            0nat
        },
        group_of(first, name).name == name,
        group_of(first, name).ok == count(first, name, ToolExecutionStatus::Success),
        group_of(first, name).accepted == count(first, name, ToolExecutionStatus::Accepted),
        group_of(first, name).err == count(first, name, ToolExecutionStatus::ToolError),
    decreases second.len(),
{
    assert(seq![call].drop_last() =~= Seq::<CallView>::empty());
    reveal_with_fuel(count, 2);
    if second.len() == 0 {
        assert(first + second =~= first);
    } else {
        law_counts_add_up(first, second.drop_last(), call, name, status);
        assert((first + second).drop_last() =~= first + second.drop_last());
    }
}

/// Every tool that was called is shown once, where it was called first: a list of calls shows the
/// tools in the order of their first call.
pub proof fn law_tools_are_shown_once(calls: Seq<CallView>, name: Seq<char>)
    ensures
        first_seen(calls).contains(name) <==> exists|i: int|
            0 <= i < calls.len() && (#[trigger] calls[i]).name == name,
        forall|i: int, j: int|
            0 <= i < j < first_seen(calls).len() ==> #[trigger] first_seen(calls)[i]
                != #[trigger] first_seen(calls)[j],
        calls.len() > 0 ==> first_seen(calls.drop_last()).is_prefix_of(first_seen(calls)),
        groups_of(calls).len() == first_seen(calls).len(),
        forall|i: int|
            0 <= i < groups_of(calls).len() ==> (#[trigger] groups_of(calls)[i]).name
                == first_seen(calls)[i],
    decreases calls.len(),
{
    if calls.len() > 0 {
        let before = calls.drop_last();
        law_tools_are_shown_once(before, name);
        let known = first_seen(before);
        let all = first_seen(calls);
        let last = calls.last().name;
        assert(calls[calls.len() - 1].name == last);
        assert forall|i: int| 0 <= i < before.len() implies before[i] == #[trigger] calls[i] by {}
        if known.contains(name) {
            let i = choose|i: int| 0 <= i < before.len() && (#[trigger] before[i]).name == name;
            assert(calls[i].name == name);
            let k = choose|k: int| 0 <= k < known.len() && known[k] == name;
            assert(all[k] == name);
        }
        if !known.contains(last) {
            assert(all[known.len() as int] == last);
            if all.contains(name) {
                let k = choose|k: int| 0 <= k < all.len() && all[k] == name;
                if k < known.len() {
                    assert(known[k] == name);
                }
            }
            assert forall|i: int, j: int| 0 <= i < j < all.len() implies #[trigger] all[i]
                != #[trigger] all[j] by {
                if j == known.len() {
                    assert(known.contains(known[i]));
                }
            }
        }
        if exists|i: int| 0 <= i < calls.len() && (#[trigger] calls[i]).name == name {
            let i = choose|i: int| 0 <= i < calls.len() && (#[trigger] calls[i]).name == name;
            if i < before.len() {
                assert(before[i].name == name);
            }
        }
    }
}

/// A tool is shown by its name with how often it went well, was accepted and failed, each where it
/// happened at all.
pub proof fn law_groups_show_their_counts(group: GroupView, quote: Seq<char>)
    ensures
        group_text(group, quote) == "["@ + group.name + " "@ + text::join(
            chips(group, quote),
            " "@,
        ) + "]"@,
        group.ok > 0 && group.accepted == 0 && group.err == 0 ==> chips(group, quote) == seq![
            quote + "ok×"@ + text::decimal(group.ok) + quote,
        ],
        group.ok == 0 && group.accepted > 0 && group.err == 0 ==> chips(group, quote) == seq![
            quote + "accepted×"@ + text::decimal(group.accepted) + quote,
        ],
        group.ok == 0 && group.accepted == 0 && group.err > 0 ==> chips(group, quote) == seq![
            quote + "err×"@ + text::decimal(group.err) + quote,
        ],
        group.ok > 0 && group.accepted > 0 && group.err > 0 ==> chips(group, quote) == seq![
            quote + "ok×"@ + text::decimal(group.ok) + quote,
            quote + "accepted×"@ + text::decimal(group.accepted) + quote,
            quote + "err×"@ + text::decimal(group.err) + quote,
        ],
        chips(group, quote).len() == (if group.ok > 0 {
            1int
        } else {
            0int
        }) + (if group.accepted > 0 {
            1int
        } else {
            0int
        }) + (if group.err > 0 {
            1int
        } else {
            0int
        }),
{
}

/// The footer stands behind the reply, and holds the tools and then the memory, each where there is
/// something to show.
pub proof fn law_footers_show_tools_and_memory(
    reply: Seq<char>,
    groups: Seq<GroupView>,
    hits: MemoryTransparencySummary,
)
    requires
        groups.len() > 0,
    ensures
        with_footer(reply, Seq::empty(), None, TransparencyRenderStyle::DiscordSubtext) == reply,
        with_footer(reply, groups, None, TransparencyRenderStyle::DiscordSubtext) == reply
            + "\n-# "@ + escaped(groups_text("tools "@, groups, "`"@)),
        with_footer(reply, groups, None, TransparencyRenderStyle::PlainFooter) == reply
            + "\n---\n"@ + groups_text("tools: "@, groups, ""@),
        with_footer(reply, Seq::empty(), Some(hits), TransparencyRenderStyle::PlainFooter) == reply
            + "\n---\n"@ + ("recall: short="@ + text::decimal(hits.short_hits as nat) + " long="@
            + text::decimal(hits.long_hits as nat)),
        with_footer(reply, groups, Some(hits), TransparencyRenderStyle::PlainFooter) == reply
            + "\n---\n"@ + (groups_text("tools: "@, groups, ""@) + " | "@ + ("recall: short="@
            + text::decimal(hits.short_hits as nat) + " long="@ + text::decimal(
            hits.long_hits as nat,
        ))),
{
    reveal_with_fuel(text::join, 3);
    let plain = groups_text("tools: "@, groups, ""@);
    let subtle = groups_text("tools "@, groups, "`"@);
    let recall = "recall: short="@ + text::decimal(hits.short_hits as nat) + " long="@
        + text::decimal(hits.long_hits as nat);
    assert(footer_parts(groups, None, TransparencyRenderStyle::DiscordSubtext) =~= seq![subtle]);
    assert(text::join(seq![subtle], " • "@) =~= subtle);
    assert(footer_parts(groups, None, TransparencyRenderStyle::PlainFooter) =~= seq![plain]);
    assert(text::join(seq![plain], " | "@) =~= plain);
    assert(footer_parts(Seq::empty(), Some(hits), TransparencyRenderStyle::PlainFooter) =~= seq![
        recall,
    ]);
    assert(text::join(seq![recall], " | "@) =~= recall);
    assert(footer_parts(groups, Some(hits), TransparencyRenderStyle::PlainFooter) =~= seq![
        plain,
        recall,
    ]);
    assert(seq![plain, recall].drop_last() =~= seq![plain]);
    assert(text::join(seq![plain, recall], " | "@) =~= plain + " | "@ + recall);
}

/// All tools are shown, one after another.
pub proof fn law_every_group_is_shown(heading: Seq<char>, groups: Seq<GroupView>, quote: Seq<char>)
    requires
        groups.len() > 0,
    ensures
        groups_text(heading, groups, quote) == heading + text::join(
            groups.map(|i: int, group: GroupView| group_text(group, quote)),
            " "@,
        ),
{
    assert(Seq::new(groups.len(), |i: int| group_text(groups[i], quote)) =~= groups.map(
        |i: int, group: GroupView| group_text(group, quote),
    ));
}

} // verus!
