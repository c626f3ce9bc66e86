use vstd::prelude::*;
use crate::contest::{Contest, ContestView, Host, host_name, views};
use crate::tokyo::{format_tokyo_time, tokyo_formatted};

verus! {

/// The single character that stands for an English three-letter weekday
/// abbreviation in the message.
pub open spec fn weekday_char(a: char, b: char, c: char) -> Option<char> {
    if a == 'M' && b == 'o' && c == 'n' {
        Some('月')
    } else if a == 'T' && b == 'u' && c == 'e' {
        Some('火')
    } else if a == 'W' && b == 'e' && c == 'd' {
        Some('水')
    } else if a == 'T' && b == 'h' && c == 'u' {
        Some('木')
    } else if a == 'F' && b == 'r' && c == 'i' {
        Some('金')
    } else if a == 'S' && b == 'a' && c == 't' {
        Some('土')
    } else if a == 'S' && b == 'u' && c == 'n' {
        Some('日')
    } else {
        None
    }
}

pub open spec fn is_weekday_char(k: char) -> bool {
    k == '月' || k == '火' || k == '水' || k == '木' || k == '金' || k == '土' || k == '日'
}

/// Replaces, left to right, each weekday abbreviation by its single character.
pub open spec fn localize_weekday(s: Seq<char>) -> Seq<char>
    decreases s.len(),
{
    if s.len() == 0 {
        s
    } else if s.len() >= 3 && weekday_char(s[0], s[1], s[2]) is Some {
        seq![weekday_char(s[0], s[1], s[2])->0] + localize_weekday(s.skip(3))
    } else {
        seq![s[0]] + localize_weekday(s.skip(1))
    }
}

proof fn lemma_localize_head(t: Seq<char>)
    requires
        t.len() > 0,
    ensures
        localize_weekday(t).len() > 0,
        is_weekday_char(localize_weekday(t)[0]) || (localize_weekday(t) == seq![t[0]] + localize_weekday(
            t.skip(1),
        ) && localize_weekday(t)[0] == t[0]),
{
    if t.len() >= 3 && weekday_char(t[0], t[1], t[2]) is Some {
        assert(localize_weekday(t)[0] == weekday_char(t[0], t[1], t[2])->0);
    } else {
        assert(localize_weekday(t)[0] == t[0]);
    }
}

proof fn lemma_localize_empty(t: Seq<char>)
    ensures
        localize_weekday(t).len() == 0 <==> t.len() == 0,
{
    if t.len() > 0 {
        lemma_localize_head(t);
    }
}

/// No weekday abbreviation is left in a localized text: wherever the input
/// held one, the output holds its single character instead.
pub proof fn lemma_no_weekday_abbreviation(s: Seq<char>)
    ensures
        forall|i: int|
            0 <= i && i + 3 <= localize_weekday(s).len() ==> #[trigger] weekday_char(
                localize_weekday(s)[i],
                localize_weekday(s)[i + 1],
                localize_weekday(s)[i + 2],
            ) is None,
    decreases s.len(),
{
    let l = localize_weekday(s);
    if s.len() > 0 {
        if s.len() >= 3 && weekday_char(s[0], s[1], s[2]) is Some {
            let rest = localize_weekday(s.skip(3));
            lemma_no_weekday_abbreviation(s.skip(3));
            assert(l == seq![weekday_char(s[0], s[1], s[2])->0] + rest);
            assert forall|i: int| 0 <= i && i + 3 <= l.len() implies #[trigger] weekday_char(l[i], l[i + 1], l[i + 2]) is None by {
                if i > 0 {
                    assert(l[i] == rest[i - 1]);
                    assert(l[i + 1] == rest[i]);
                    assert(l[i + 2] == rest[i + 1]);
                    assert(weekday_char(rest[i - 1], rest[i - 1 + 1], rest[i - 1 + 2]) is None);
                }
            }
        } else {
            let t = s.skip(1);
            let rest = localize_weekday(t);
            lemma_no_weekday_abbreviation(t);
            assert(l == seq![s[0]] + rest);
            assert forall|i: int| 0 <= i && i + 3 <= l.len() implies #[trigger] weekday_char(l[i], l[i + 1], l[i + 2]) is None by {
                if i > 0 {
                    assert(l[i] == rest[i - 1]);
                    assert(l[i + 1] == rest[i]);
                    assert(l[i + 2] == rest[i + 1]);
                    assert(weekday_char(rest[i - 1], rest[i - 1 + 1], rest[i - 1 + 2]) is None);
                } else if weekday_char(l[0], l[1], l[2]) is Some {
                    assert(l[1] == rest[0]);
                    assert(l[2] == rest[1]);
                    lemma_localize_empty(t);
                    lemma_localize_head(t);
                    assert(rest[0] == t[0]);
                    let u = t.skip(1);
                    assert(rest == seq![t[0]] + localize_weekday(u));
                    assert(rest[1] == localize_weekday(u)[0]);
                    lemma_localize_empty(u);
                    lemma_localize_head(u);
                    assert(localize_weekday(u)[0] == u[0]);
                    assert(s[1] == t[0]);
                    assert(s[2] == u[0]);
                }
            }
        }
    }
}

/// No character of `p` can begin a weekday abbreviation.
pub open spec fn no_weekday_initial(p: Seq<char>) -> bool {
    forall|i: int| 0 <= i < p.len() ==> !(#[trigger] p[i] == 'M' || p[i] == 'T' || p[i] == 'W' || p[i] == 'F' || p[i] == 'S')
}

/// A prefix in which no weekday abbreviation can begin is kept as it is.
pub proof fn lemma_localize_plain_prefix(p: Seq<char>, q: Seq<char>)
    requires
        no_weekday_initial(p),
    ensures
        localize_weekday(p + q) == p + localize_weekday(q),
    decreases p.len(),
{
    if p.len() > 0 {
        let t = p + q;
        assert(t[0] == p[0]);
        assert(t.skip(1) =~= p.skip(1) + q);
        lemma_localize_plain_prefix(p.skip(1), q);
        assert(p + localize_weekday(q) =~= seq![p[0]] + (p.skip(1) + localize_weekday(q)));
    } else {
        assert(p + q =~= q);
        assert(p + localize_weekday(q) =~= localize_weekday(q));
    }
}

/// A shown time that reads `Sun` right after a prefix in which no weekday can
/// begin (such as `01/01 (`) shows the Sunday character there instead.
pub proof fn lemma_sunday_shown_localized(p: Seq<char>, q: Seq<char>)
    requires
        no_weekday_initial(p),
    ensures
        localize_weekday(p + "Sun"@ + q) == p + seq!['日'] + localize_weekday(q),
{
    reveal_strlit("Sun");
    let rest = "Sun"@ + q;
    assert(p + "Sun"@ + q =~= p + rest);
    lemma_localize_plain_prefix(p, rest);
    assert(rest[0] == 'S' && rest[1] == 'u' && rest[2] == 'n');
    assert(rest.skip(3) =~= q);
    assert(p + (seq!['日'] + localize_weekday(q)) =~= p + seq!['日'] + localize_weekday(q));
}

fn weekday_text(a: char, b: char, c: char) -> (r: Option<&'static str>)
    ensures
        (r is Some) == (weekday_char(a, b, c) is Some),
        r is Some ==> r->0@ == seq![weekday_char(a, b, c)->0],
{
    proof {
        reveal_strlit("月");
        reveal_strlit("火");
        reveal_strlit("水");
        reveal_strlit("木");
        reveal_strlit("金");
        reveal_strlit("土");
        reveal_strlit("日");
    }
    if a == 'M' && b == 'o' && c == 'n' {
        Some("月")
    } else if a == 'T' && b == 'u' && c == 'e' {
        Some("火")
    } else if a == 'W' && b == 'e' && c == 'd' {
        Some("水")
    } else if a == 'T' && b == 'h' && c == 'u' {
        Some("木")
    } else if a == 'F' && b == 'r' && c == 'i' {
        Some("金")
    } else if a == 'S' && b == 'a' && c == 't' {
        Some("土")
    } else if a == 'S' && b == 'u' && c == 'n' {
        Some("日")
    } else {
        None
    }
}

/// Replaces each English weekday abbreviation in `s` by its single character.
pub fn localize_weekdays(s: &str) -> (r: String)
    ensures
        r@ == localize_weekday(s@),
{
    let n = s.unicode_len();
    let mut out = String::new();
    let mut i: usize = 0;
    proof {
        assert(s@.skip(0) =~= s@);
        assert(out@ + localize_weekday(s@) =~= localize_weekday(s@));
    }
    while i < n
        invariant
            n == s@.len(),
            i <= n,
            out@ + localize_weekday(s@.skip(i as int)) == localize_weekday(s@),
        decreases n - i,
    {
        let t = Ghost(s@.skip(i as int));
        let mut hit: Option<&'static str> = None;
        if n - i >= 3 {
            hit = weekday_text(s.get_char(i), s.get_char(i + 1), s.get_char(i + 2));
        }
        match hit {
            Some(k) => {
                proof {
                    assert(t@[0] == s@[i as int] && t@[1] == s@[i as int + 1] && t@[2] == s@[i as int + 2]);
                    assert(t@.skip(3) =~= s@.skip(i as int + 3));
                    assert(out@ + k@ + localize_weekday(s@.skip(i as int + 3)) =~= out@ + localize_weekday(t@));
                }
                out.append(k);
                i = i + 3;
            },
            None => {
                proof {
                    if t@.len() >= 3 {
                        assert(t@[0] == s@[i as int] && t@[1] == s@[i as int + 1] && t@[2] == s@[i as int + 2]);
                    }
                    assert(t@.skip(1) =~= s@.skip(i as int + 1));
                    assert(out@ + s@.subrange(i as int, i as int + 1) + localize_weekday(s@.skip(i as int + 1)) =~= out@
                        + localize_weekday(t@));
                }
                out.append(s.substring_char(i, i + 1));
                i = i + 1;
            },
        }
    }
    proof {
        assert(s@.skip(i as int) =~= Seq::<char>::empty());
        assert(out@ + Seq::<char>::empty() =~= out@);
    }
    out
}

/// Title of the message's header block.
pub const HEADER_TEXT: &'static str = ":deployparrot: 今週の競プロ :deployparrot:";

/// Plain text for clients that cannot show blocks.
pub const FALLBACK_TEXT: &'static str = "今週の競プロ";

/// How a start time is shown, before the weekday is localized.
pub const TIME_FORMAT: &'static str = "%m/%d (%a) %H:%M";

/// Follows the start time in each contest line.
pub const STARTS_SUFFIX: &'static str = " 開始";

/// One unit of the message.
#[derive(Debug, Clone, PartialEq, Eq)]
pub enum Block {
    Header(String),
    Divider,
    Section(String),
}

pub enum BlockView {
    Header(Seq<char>),
    Divider,
    Section(Seq<char>),
}

impl View for Block {
    type V = BlockView;

    open spec fn view(&self) -> BlockView {
        match self {
            Block::Header(t) => BlockView::Header(t@),
            Block::Divider => BlockView::Divider,
            Block::Section(t) => BlockView::Section(t@),
        }
    }
}

pub open spec fn block_views(s: Seq<Block>) -> Seq<BlockView> {
    s.map_values(|b: Block| b@)
}

/// The message: its blocks, and a flat text for clients that cannot show them.
#[derive(Debug, Clone, PartialEq, Eq)]
pub struct Message {
    pub blocks: Vec<Block>,
    pub text: String,
}

pub struct MessageView {
    pub blocks: Seq<BlockView>,
    pub text: Seq<char>,
}

impl View for Message {
    type V = MessageView;

    open spec fn view(&self) -> MessageView {
        MessageView { blocks: block_views(self.blocks@), text: self.text@ }
    }
}

/// A start time as shown: Tokyo wall-clock time with the weekday localized;
/// empty where the instant cannot be shown.
pub open spec fn time_text(seconds: i64) -> Seq<char> {
    match tokyo_formatted(seconds, TIME_FORMAT@) {
        Some(t) => localize_weekday(t),
        None => Seq::empty(),
    }
}

/// The text of a contest's section: a link with the start time on the next
/// line where the contest has a url, else the name and the time on one line.
pub open spec fn contest_line(c: ContestView) -> Seq<char> {
    match c.url {
        Some(u) => "<"@ + u + "|"@ + c.name + ">\n"@ + time_text(c.start_time as i64) + STARTS_SUFFIX@,
        None => c.name + " "@ + time_text(c.start_time as i64) + STARTS_SUFFIX@,
    }
}

/// The contests of `s` held by `h`, in their order.
pub open spec fn of_host(s: Seq<ContestView>, h: Host) -> Seq<ContestView>
    decreases s.len(),
{
    if s.len() == 0 {
        s
    } else if s.last().host == h {
        of_host(s.drop_last(), h).push(s.last())
    } else {
        of_host(s.drop_last(), h)
    }
}

pub open spec fn line_blocks(s: Seq<ContestView>) -> Seq<BlockView> {
    s.map_values(|c: ContestView| BlockView::Section(contest_line(c)))
}

/// The blocks of one provider: nothing where it has no contest; else its
/// bold name, one section per contest and a divider.
pub open spec fn host_group(s: Seq<ContestView>, h: Host) -> Seq<BlockView> {
    let g = of_host(s, h);
    if g.len() == 0 {
        Seq::empty()
    } else {
        seq![BlockView::Section("*"@ + host_name(h) + "*"@)] + line_blocks(g) + seq![BlockView::Divider]
    }
}

pub open spec fn heading_blocks() -> Seq<BlockView> {
    seq![BlockView::Header(HEADER_TEXT@), BlockView::Divider]
}

/// Header and divider, then the providers' groups in their fixed order.
pub open spec fn render_blocks(s: Seq<ContestView>) -> Seq<BlockView> {
    heading_blocks() + host_group(s, Host::AtCoder) + host_group(s, Host::Codeforces) + host_group(
        s,
        Host::Yukicoder,
    ) + host_group(s, Host::Topcoder)
}

pub open spec fn render_view(s: Seq<ContestView>) -> MessageView {
    MessageView { blocks: render_blocks(s), text: FALLBACK_TEXT@ }
}

/// The section text of one contest.
pub fn contest_text(c: &Contest) -> (r: String)
    ensures
        r@ == contest_line(c@),
{
    let time = match format_tokyo_time(c.start_time, TIME_FORMAT) {
        Some(t) => localize_weekdays(t.as_str()),
        None => String::new(),
    };
    let mut r = String::new();
    match &c.url {
        Some(u) => {
            r.append("<");
            r.append(u.as_str());
            r.append("|");
            r.append(c.name.as_str());
            r.append(">\n");
        },
        None => {
            r.append(c.name.as_str());
            r.append(" ");
        },
    }
    r.append(time.as_str());
    r.append(STARTS_SUFFIX);
    proof {
        assert(time@ == time_text(c.start_time));
    }
    r
}

/// Appends the group of provider `h`.
fn push_group(blocks: &mut Vec<Block>, contests: &Vec<Contest>, h: Host)
    ensures
        block_views(final(blocks)@) == block_views(old(blocks)@) + host_group(views(contests@), h),
{
    let ghost all = views(contests@);
    let mut lines: Vec<Block> = Vec::new();
    let mut i: usize = 0;
    while i < contests.len()
        invariant
            all == views(contests@),
            i <= contests@.len(),
            block_views(lines@) == line_blocks(of_host(all.take(i as int), h)),
        decreases contests@.len() - i,
    {
        let c = &contests[i];
        proof {
            assert(all.take(i as int + 1).drop_last() =~= all.take(i as int));
            assert(all.take(i as int + 1).last() == c@);
        }
        if c.host == h {
            let ghost before = lines@;
            let line = contest_text(c);
            lines.push(Block::Section(line));
            proof {
                let g = of_host(all.take(i as int), h);
                assert(line_blocks(g.push(c@)) =~= line_blocks(g).push(BlockView::Section(contest_line(c@))));
                assert(block_views(lines@) =~= block_views(before).push(BlockView::Section(contest_line(c@))));
            }
        }
        i = i + 1;
    }
    proof {
        assert(all.take(i as int) =~= all);
    }
    if lines.len() > 0 {
        let ghost start = blocks@;
        let mut title = String::from_str("*");
        let name = h.to_string();
        title.append(name.as_str());
        title.append("*");
        blocks.push(Block::Section(title));
        let ghost mid = blocks@;
        blocks.append(&mut lines);
        let ghost mid2 = blocks@;
        blocks.push(Block::Divider);
        proof {
            assert(block_views(mid) =~= block_views(start).push(BlockView::Section("*"@ + host_name(h) + "*"@)));
            assert(block_views(mid2) =~= block_views(mid) + line_blocks(of_host(all, h)));
            assert(block_views(blocks@) =~= block_views(mid2).push(BlockView::Divider));
            assert(block_views(blocks@) =~= block_views(start) + host_group(all, h));
        }
    } else {
        proof {
            assert(block_views(blocks@) =~= block_views(blocks@) + host_group(all, h));
        }
    }
}

/// Renders contests as a block message: a header and a divider, then for each
/// provider in fixed order that has contests, its name, one section per
/// contest in input order, and a divider.
pub fn render(contests: &Vec<Contest>) -> (r: Message)
    ensures
        r@ == render_view(views(contests@)),
{
    let mut blocks: Vec<Block> = Vec::new();
    blocks.push(Block::Header(String::from_str(HEADER_TEXT)));
    blocks.push(Block::Divider);
    proof {
        assert(block_views(blocks@) =~= heading_blocks());
    }
    push_group(&mut blocks, contests, Host::AtCoder);
    push_group(&mut blocks, contests, Host::Codeforces);
    push_group(&mut blocks, contests, Host::Yukicoder);
    push_group(&mut blocks, contests, Host::Topcoder);
    let r = Message { blocks, text: String::from_str(FALLBACK_TEXT) };
    proof {
        assert(r@.blocks =~= render_blocks(views(contests@)));
    }
    r
}

/// Rendering depends on the contests alone: equal inputs give equal messages.
pub proof fn lemma_render_is_pure(a: Seq<ContestView>, b: Seq<ContestView>)
    requires
        a == b,
    ensures
        render_view(a) == render_view(b),
{
}

/// With no contests the message holds just the header and a divider, and its
/// flat text is not empty.
pub proof fn lemma_render_empty()
    ensures
        render_blocks(Seq::empty()) == heading_blocks(),
        render_blocks(Seq::empty()).len() == 2,
        render_view(Seq::empty()).text.len() > 0,
{
    reveal_strlit("今週の競プロ");
    let e = Seq::<ContestView>::empty();
    assert(render_blocks(e) =~= heading_blocks());
}

proof fn lemma_of_other_host(s: Seq<ContestView>, h: Host, other: Host)
    requires
        forall|i: int| 0 <= i < s.len() ==> (#[trigger] s[i]).host == h,
        other != h,
    ensures
        of_host(s, other).len() == 0,
    decreases s.len(),
{
    if s.len() > 0 {
        lemma_of_other_host(s.drop_last(), h, other);
    }
}

proof fn lemma_of_own_host(s: Seq<ContestView>, h: Host)
    requires
        forall|i: int| 0 <= i < s.len() ==> (#[trigger] s[i]).host == h,
    ensures
        of_host(s, h) == s,
    decreases s.len(),
{
    if s.len() > 0 {
        lemma_of_own_host(s.drop_last(), h);
        assert(s.drop_last().push(s.last()) =~= s);
    }
}

/// Where every contest comes from provider `h`, the message holds the header,
/// a divider and the group of `h` (its title, one line per contest in input
/// order, and a divider), and no block of any other provider.
pub proof fn lemma_render_single_host(s: Seq<ContestView>, h: Host)
    requires
        forall|i: int| 0 <= i < s.len() ==> (#[trigger] s[i]).host == h,
    ensures
        render_blocks(s) == heading_blocks() + host_group(s, h),
        s.len() > 0 ==> render_blocks(s) == heading_blocks() + seq![BlockView::Section("*"@ + host_name(h) + "*"@)]
            + line_blocks(s) + seq![BlockView::Divider],
        s.len() > 0 ==> render_blocks(s).len() == s.len() + 4,
{
    lemma_of_own_host(s, h);
    if h != Host::AtCoder {
        lemma_of_other_host(s, h, Host::AtCoder);
    }
    if h != Host::Codeforces {
        lemma_of_other_host(s, h, Host::Codeforces);
    }
    if h != Host::Yukicoder {
        lemma_of_other_host(s, h, Host::Yukicoder);
    }
    if h != Host::Topcoder {
        lemma_of_other_host(s, h, Host::Topcoder);
    }
    assert(render_blocks(s) =~= heading_blocks() + host_group(s, h));
}

/// Groups follow the providers' fixed order, not the input order: a contest of
/// the first provider and one of the second render alike in either order, the
/// first's group (title, line, divider) before the second's.
pub proof fn lemma_render_fixed_host_order(a: ContestView, b: ContestView)
    requires
        a.host == Host::AtCoder,
        b.host == Host::Codeforces,
    ensures
        render_blocks(seq![b, a]) == render_blocks(seq![a, b]),
        render_blocks(seq![a, b]) == heading_blocks() + seq![
            BlockView::Section("*"@ + host_name(Host::AtCoder) + "*"@),
            BlockView::Section(contest_line(a)),
            BlockView::Divider,
            BlockView::Section("*"@ + host_name(Host::Codeforces) + "*"@),
            BlockView::Section(contest_line(b)),
            BlockView::Divider,
        ],
{
    let ab = seq![a, b];
    let ba = seq![b, a];
    assert(ab.drop_last() =~= seq![a]);
    assert(ba.drop_last() =~= seq![b]);
    assert(seq![a].drop_last() =~= Seq::<ContestView>::empty());
    assert(seq![b].drop_last() =~= Seq::<ContestView>::empty());
    assert(Seq::<ContestView>::empty().push(a) =~= seq![a]);
    assert(Seq::<ContestView>::empty().push(b) =~= seq![b]);
    assert(ab.last() == b && ba.last() == a);
    assert(seq![a].last() == a && seq![b].last() == b);
    assert(seq![a].len() == 1 && seq![b].len() == 1);
    assert(of_host(Seq::<ContestView>::empty(), Host::AtCoder) == Seq::<ContestView>::empty());
    assert(of_host(Seq::<ContestView>::empty(), Host::Codeforces) == Seq::<ContestView>::empty());
    assert(of_host(seq![b], Host::Codeforces) == seq![b]);
    assert(of_host(seq![a], Host::Codeforces).len() == 0);
    assert(of_host(seq![a], Host::AtCoder) == seq![a]);
    assert(of_host(seq![b], Host::AtCoder).len() == 0);
    assert(of_host(ab, Host::AtCoder) == seq![a]);
    assert(of_host(ba, Host::AtCoder) == seq![a]);
    assert(of_host(ab, Host::Codeforces) == seq![b]);
    assert(of_host(ba, Host::Codeforces) == seq![b]);
    assert(of_host(Seq::<ContestView>::empty(), Host::Yukicoder) == Seq::<ContestView>::empty());
    assert(of_host(Seq::<ContestView>::empty(), Host::Topcoder) == Seq::<ContestView>::empty());
    assert(of_host(seq![a], Host::Yukicoder).len() == 0);
    assert(of_host(seq![b], Host::Yukicoder).len() == 0);
    assert(of_host(seq![a], Host::Topcoder).len() == 0);
    assert(of_host(seq![b], Host::Topcoder).len() == 0);
    assert(of_host(ab, Host::Yukicoder).len() == 0);
    assert(of_host(ba, Host::Yukicoder).len() == 0);
    assert(of_host(ab, Host::Topcoder).len() == 0);
    assert(of_host(ba, Host::Topcoder).len() == 0);
    assert(line_blocks(seq![a]) =~= seq![BlockView::Section(contest_line(a))]);
    assert(line_blocks(seq![b]) =~= seq![BlockView::Section(contest_line(b))]);
    assert(render_blocks(ab) =~= render_blocks(ba));
    assert(render_blocks(ab) =~= heading_blocks() + seq![
        BlockView::Section("*"@ + host_name(Host::AtCoder) + "*"@),
        BlockView::Section(contest_line(a)),
        BlockView::Divider,
        BlockView::Section("*"@ + host_name(Host::Codeforces) + "*"@),
        BlockView::Section(contest_line(b)),
        BlockView::Divider,
    ]);
}

} // verus!
