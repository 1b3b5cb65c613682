use vstd::prelude::*;
use crate::text::{chars_of, pieces_of, split_on, split_ranges, trim_str, trimmed};

verus! {

/// What a hop record stands for.
#[derive(Clone, Copy, Debug, PartialEq, Eq, Structural)]
pub enum ReplyKind {
    /// A probe attempt that got no answer (`*` in the tool's output).
    NoReply,
    /// A reply from a named host, whose address is worth locating.
    Host,
    /// A further timing for the host of the previous reply.
    TimingOnly,
}

/// Why a line of the probe tool's output could not be read.
#[derive(Clone, Copy, Debug, PartialEq, Eq, Structural)]
pub enum ParseError {
    /// The line holds no double-space separated reply group after the step number.
    NoReplies,
    /// A reply group lacks a token that the layout asks for.
    Truncated,
    /// The line holds more replies than there are letters to tell them apart.
    TooManyReplies,
}

impl ParseError {
    /// A message for the status line.
    pub fn message(&self) -> (r: String)
        ensures
            *self == ParseError::NoReplies ==> r@ == "malformed line: no reply groups"@,
            *self == ParseError::Truncated ==> r@ == "malformed line: truncated reply group"@,
            *self == ParseError::TooManyReplies ==> r@
                == "malformed line: too many replies for one step"@,
    {
        let s = match self {
            ParseError::NoReplies => "malformed line: no reply groups",
            ParseError::Truncated => "malformed line: truncated reply group",
            ParseError::TooManyReplies => "malformed line: too many replies for one step",
        };
        s.to_owned()
    }
}

/// One reply reported for one probe step.
#[derive(Debug)]
pub struct HopRecord {
    /// The step number, with a letter when the step has several replies.
    pub label: String,
    /// The replying address, `x` for no reply, `-` for a timing-only record.
    pub address: String,
    /// The reported host name, `-` when it is the address itself or unknown.
    pub name: String,
    /// The round-trip time as the tool wrote it, such as `1.234 ms`.
    pub elapsed: String,
    /// What the record stands for.
    pub kind: ReplyKind,
}

/// The text of a hop record.
pub struct HopView {
    pub label: Seq<char>,
    pub address: Seq<char>,
    pub name: Seq<char>,
    pub elapsed: Seq<char>,
    pub kind: ReplyKind,
}

impl View for HopRecord {
    type V = HopView;

    open spec fn view(&self) -> HopView {
        HopView {
            label: self.label@,
            address: self.address@,
            name: self.name@,
            elapsed: self.elapsed@,
            kind: self.kind,
        }
    }
}

impl HopRecord {
    /// A copy of the record.
    pub fn clone_record(&self) -> (r: HopRecord)
        ensures
            r@ == self@,
    {
        HopRecord {
            label: self.label.clone(),
            address: self.address.clone(),
            name: self.name.clone(),
            elapsed: self.elapsed.clone(),
            kind: self.kind,
        }
    }
}

/// The texts of a sequence of records.
pub open spec fn views(v: Seq<HopRecord>) -> Seq<HopView> {
    v.map_values(|h: HopRecord| h@)
}

/// A probe attempt without answer.
pub open spec fn no_reply() -> HopView {
    HopView {
        label: seq![],
        address: seq!['x'],
        name: seq!['x'],
        elapsed: seq!['-'],
        kind: ReplyKind::NoReply,
    }
}

/// A timing written as its number and its unit.
pub open spec fn timing(number: Seq<char>, unit: Seq<char>) -> Seq<char> {
    number + seq![' '] + unit
}

/// A further timing for the host of the previous reply.
pub open spec fn timing_only(number: Seq<char>, unit: Seq<char>) -> HopView {
    HopView {
        label: seq![],
        address: seq!['-'],
        name: seq!['-'],
        elapsed: timing(number, unit),
        kind: ReplyKind::TimingOnly,
    }
}

/// The address inside its enclosing brackets.
pub open spec fn unbracket(t: Seq<char>) -> Seq<char> {
    t.subrange(1, t.len() - 1)
}

/// A reply from host `name` at the bracketed address `bracketed`.
pub open spec fn host_reply(
    name: Seq<char>,
    bracketed: Seq<char>,
    number: Seq<char>,
    unit: Seq<char>,
) -> HopView {
    let address = unbracket(bracketed);
    HopView {
        label: seq![],
        address,
        name: if name == address {
            seq!['-']
        } else {
            name
        },
        elapsed: timing(number, unit),
        kind: ReplyKind::Host,
    }
}

/// `h` in front of the records `rest`, if there are any.
pub open spec fn prepend(h: HopView, rest: Option<Seq<HopView>>) -> Option<Seq<HopView>> {
    match rest {
        Some(s) => Some(seq![h] + s),
        None => None,
    }
}

/// `front` in front of the records `rest`, if there are any.
pub open spec fn join(front: Seq<HopView>, rest: Option<Seq<HopView>>) -> Option<Seq<HopView>> {
    match rest {
        Some(s) => Some(front + s),
        None => None,
    }
}

/// The replies read from the tokens `toks` of the current reply group and
/// the groups `rest` that follow it, or `None` where a token is missing.
///
/// A `*` token is a probe without answer. Any other token is a host name,
/// followed by its bracketed address; the timing of that reply is the first
/// two tokens of the next group. A group reached when the tokens of the
/// current one are used up starts with a further timing of the same host.
pub open spec fn replies(toks: Seq<Seq<char>>, rest: Seq<Seq<char>>) -> Option<Seq<HopView>>
    decreases rest.len(), toks.len(),
{
    if toks.len() == 0 {
        if rest.len() == 0 {
            Some(seq![])
        } else {
            let t = split_on(rest[0], seq![' ']);
            if t.len() < 2 {
                None
            } else {
                prepend(
                    timing_only(t[0], t[1]),
                    replies(t.subrange(2, t.len() as int), rest.drop_first()),
                )
            }
        }
    } else if toks[0] == seq!['*'] {
        prepend(no_reply(), replies(toks.drop_first(), rest))
    } else if toks.len() < 2 || toks[1].len() < 2 || rest.len() == 0 {
        None
    } else {
        let t = split_on(rest[0], seq![' ']);
        if t.len() < 2 {
            None
        } else {
            prepend(
                host_reply(toks[0], toks[1], t[0], t[1]),
                replies(t.subrange(2, t.len() as int), rest.drop_first()),
            )
        }
    }
}

/// The decimal digits of `n`.
pub open spec fn decimal(n: nat) -> Seq<char>
    decreases n,
{
    if n < 10 {
        seq![digit(n)]
    } else {
        decimal(n / 10) + seq![digit(n % 10)]
    }
}

/// The character of the decimal digit `d`.
pub open spec fn digit(d: nat) -> char {
    seq!['0', '1', '2', '3', '4', '5', '6', '7', '8', '9'][d as int]
}

/// The letter that tells apart the `k`-th of several replies to one step.
pub open spec fn letter(k: int) -> char {
    seq!['a', 'b', 'c', 'd', 'e', 'f', 'g', 'h'][k]
}

/// The most replies that one step can have.
pub const MAX_REPLIES: usize = 8;

/// The label of the `k`-th of `count` replies to step `step`.
pub open spec fn label_of(step: nat, k: int, count: int) -> Seq<char> {
    if count > 1 {
        decimal(step) + seq![letter(k)]
    } else {
        decimal(step)
    }
}

/// The replies `rs` of step `step`, labelled.
pub open spec fn labelled(rs: Seq<HopView>, step: nat) -> Seq<HopView> {
    Seq::new(
        rs.len(),
        |k: int| HopView { label: label_of(step, k, rs.len() as int), ..rs[k] },
    )
}

/// The separator of reply groups.
pub open spec fn double_space() -> Seq<char> {
    seq![' ', ' ']
}

/// The reply groups of a line: what follows the step number, cut at each
/// double space.
pub open spec fn groups_of(line: Seq<char>) -> Seq<Seq<char>> {
    split_on(trimmed(line), double_space())
}

/// The records of the `index`-th data line (counted from 0) of the probe
/// tool's output, or why there are none.
pub open spec fn parse_spec(line: Seq<char>, index: nat) -> Result<Seq<HopView>, ParseError> {
    let g = groups_of(line);
    if g.len() < 2 {
        Err(ParseError::NoReplies)
    } else {
        match replies(split_on(g[1], seq![' ']), g.subrange(2, g.len() as int)) {
            None => Err(ParseError::Truncated),
            Some(rs) => if rs.len() > MAX_REPLIES {
                Err(ParseError::TooManyReplies)
            } else {
                Ok(labelled(rs, index + 1))
            },
        }
    }
}

/// The texts of a parse result.
pub open spec fn outcome(r: Result<Vec<HopRecord>, ParseError>) -> Result<Seq<HopView>, ParseError> {
    match r {
        Ok(v) => Ok(views(v@)),
        Err(e) => Err(e),
    }
}

/// Whether `c` is one of the digits `0` to `9`.
pub open spec fn is_decimal_digit(c: char) -> bool {
    '0' <= c && c <= '9'
}

proof fn lemma_decimal_digits(n: nat)
    ensures
        decimal(n).len() > 0,
        forall|j: int| 0 <= j < decimal(n).len() ==> is_decimal_digit(#[trigger] decimal(n)[j]),
    decreases n,
{
    if n >= 10 {
        lemma_decimal_digits(n / 10);
        assert(is_decimal_digit(digit(n % 10)));
    } else {
        assert(is_decimal_digit(digit(n)));
    }
}

/// A line that yields a single record labels it with the bare step number:
/// decimal digits and no letter.
pub proof fn lemma_single_reply_unlettered(line: Seq<char>, index: nat)
    requires
        parse_spec(line, index) is Ok,
        parse_spec(line, index)->Ok_0.len() == 1,
    ensures
        parse_spec(line, index)->Ok_0[0].label == decimal(index + 1),
        forall|j: int|
            0 <= j < parse_spec(line, index)->Ok_0[0].label.len() ==> is_decimal_digit(
                #[trigger] parse_spec(line, index)->Ok_0[0].label[j],
            ),
{
    lemma_decimal_digits(index + 1);
}

/// A line that yields several records gives them all its step number, each
/// followed by its own letter, `a` for the first and on in the order of the
/// records; no two labels are the same.
pub proof fn lemma_several_replies_lettered(line: Seq<char>, index: nat)
    requires
        parse_spec(line, index) is Ok,
        parse_spec(line, index)->Ok_0.len() >= 2,
    ensures
        parse_spec(line, index)->Ok_0.len() <= MAX_REPLIES,
        forall|k: int|
            0 <= k < parse_spec(line, index)->Ok_0.len() ==> #[trigger] parse_spec(
                line,
                index,
            )->Ok_0[k].label == decimal(index + 1) + seq![letter(k)],
        forall|j: int, k: int|
            0 <= j < k < parse_spec(line, index)->Ok_0.len() ==> #[trigger] parse_spec(
                line,
                index,
            )->Ok_0[j].label != #[trigger] parse_spec(line, index)->Ok_0[k].label,
{
    let rs = parse_spec(line, index)->Ok_0;
    let d = decimal(index + 1);
    assert forall|j: int, k: int| 0 <= j < k < rs.len() implies #[trigger] rs[j].label
        != #[trigger] rs[k].label by {
        let lj = d + seq![letter(j)];
        let lk = d + seq![letter(k)];
        assert(lj[d.len() as int] == letter(j));
        assert(lk[d.len() as int] == letter(k));
        assert(letter(j) != letter(k));
    }
}

proof fn lemma_split_nonempty(s: Seq<char>, sep: Seq<char>)
    ensures
        split_on(s, sep).len() >= 1,
{
}

/// When the first reply group of a line starts with `*`, the first record is
/// a probe without answer: address `x`, name `x`, timing `-`.
pub proof fn lemma_star_is_no_reply(line: Seq<char>, index: nat)
    requires
        groups_of(line).len() >= 2,
        split_on(groups_of(line)[1], seq![' '])[0] == seq!['*'],
        parse_spec(line, index) is Ok,
    ensures
        parse_spec(line, index)->Ok_0.len() >= 1,
        parse_spec(line, index)->Ok_0[0].address == seq!['x'],
        parse_spec(line, index)->Ok_0[0].name == seq!['x'],
        parse_spec(line, index)->Ok_0[0].elapsed == seq!['-'],
        parse_spec(line, index)->Ok_0[0].kind == ReplyKind::NoReply,
{
    let g = groups_of(line);
    let toks = split_on(g[1], seq![' ']);
    lemma_split_nonempty(g[1], seq![' ']);
    let rest = g.subrange(2, g.len() as int);
    let tail = replies(toks.drop_first(), rest);
    assert(replies(toks, rest) == prepend(no_reply(), tail));
}

proof fn lemma_join_prepend(front: Seq<HopView>, h: HopView, rest: Option<Seq<HopView>>)
    ensures
        join(front, prepend(h, rest)) == join(front + seq![h], rest),
{
    if let Some(s) = rest {
        assert(front + (seq![h] + s) =~= (front + seq![h]) + s);
    }
}

fn digit_str(d: usize) -> (r: &'static str)
    requires
        d < 10,
    ensures
        r@ == seq![digit(d as nat)],
{
    proof {
        reveal_strlit("0");
        reveal_strlit("1");
        reveal_strlit("2");
        reveal_strlit("3");
        reveal_strlit("4");
        reveal_strlit("5");
        reveal_strlit("6");
        reveal_strlit("7");
        reveal_strlit("8");
        reveal_strlit("9");
    }
    match d {
        0 => "0",
        1 => "1",
        2 => "2",
        3 => "3",
        4 => "4",
        5 => "5",
        6 => "6",
        7 => "7",
        8 => "8",
        _ => "9",
    }
}

/// `n` written in decimal.
pub fn decimal_string(n: usize) -> (r: String)
    ensures
        r@ == decimal(n as nat),
    decreases n,
{
    if n < 10 {
        digit_str(n).to_owned()
    } else {
        let mut s = decimal_string(n / 10);
        s.append(digit_str(n % 10));
        s
    }
}

fn letter_str(k: usize) -> (r: &'static str)
    requires
        k < MAX_REPLIES,
    ensures
        r@ == seq![letter(k as int)],
{
    proof {
        reveal_strlit("a");
        reveal_strlit("b");
        reveal_strlit("c");
        reveal_strlit("d");
        reveal_strlit("e");
        reveal_strlit("f");
        reveal_strlit("g");
        reveal_strlit("h");
    }
    match k {
        0 => "a",
        1 => "b",
        2 => "c",
        3 => "d",
        4 => "e",
        5 => "f",
        6 => "g",
        _ => "h",
    }
}

/// The characters `from..to` of `s` as a new string.
fn text_of(s: &str, r: (usize, usize)) -> (t: String)
    requires
        r.0 <= r.1 <= s@.len(),
    ensures
        t@ == s@.subrange(r.0 as int, r.1 as int),
{
    s.substring_char(r.0, r.1).to_owned()
}

fn is_star(c: &Vec<char>, r: (usize, usize)) -> (b: bool)
    requires
        r.0 <= r.1 <= c@.len(),
    ensures
        b == (c@.subrange(r.0 as int, r.1 as int) == seq!['*']),
{
    if r.1 - r.0 == 1 && c[r.0] == '*' {
        assert(c@.subrange(r.0 as int, r.1 as int) =~= seq!['*']);
        true
    } else {
        proof {
            let t = c@.subrange(r.0 as int, r.1 as int);
            if t == seq!['*'] {
                assert(seq!['*'].len() == 1 && seq!['*'][0] == '*');
                assert(t[0] == c@[r.0 as int]);
            }
        }
        false
    }
}

fn no_reply_record() -> (h: HopRecord)
    ensures
        h@ == no_reply(),
{
    proof {
        reveal_strlit("x");
        reveal_strlit("-");
    }
    let h = HopRecord {
        label: String::new(),
        address: "x".to_owned(),
        name: "x".to_owned(),
        elapsed: "-".to_owned(),
        kind: ReplyKind::NoReply,
    };
    assert(h@.label =~= seq![]);
    assert(h@.address =~= seq!['x']);
    assert(h@.elapsed =~= seq!['-']);
    h
}

fn timing_text(s: &str, number: (usize, usize), unit: (usize, usize)) -> (t: String)
    requires
        number.0 <= number.1 <= s@.len(),
        unit.0 <= unit.1 <= s@.len(),
    ensures
        t@ == timing(
            s@.subrange(number.0 as int, number.1 as int),
            s@.subrange(unit.0 as int, unit.1 as int),
        ),
{
    proof {
        reveal_strlit(" ");
    }
    let mut t = text_of(s, number);
    t.append(" ");
    t.append(s.substring_char(unit.0, unit.1));
    t
}

fn timing_only_record(s: &str, number: (usize, usize), unit: (usize, usize)) -> (h: HopRecord)
    requires
        number.0 <= number.1 <= s@.len(),
        unit.0 <= unit.1 <= s@.len(),
    ensures
        h@ == timing_only(
            s@.subrange(number.0 as int, number.1 as int),
            s@.subrange(unit.0 as int, unit.1 as int),
        ),
{
    proof {
        reveal_strlit("-");
    }
    let h = HopRecord {
        label: String::new(),
        address: "-".to_owned(),
        name: "-".to_owned(),
        elapsed: timing_text(s, number, unit),
        kind: ReplyKind::TimingOnly,
    };
    assert(h@.label =~= seq![]);
    assert(h@.address =~= seq!['-']);
    h
}

fn host_record(
    s: &str,
    name: (usize, usize),
    bracketed: (usize, usize),
    number: (usize, usize),
    unit: (usize, usize),
) -> (h: HopRecord)
    requires
        name.0 <= name.1 <= s@.len(),
        bracketed.0 + 2 <= bracketed.1 <= s@.len(),
        number.0 <= number.1 <= s@.len(),
        unit.0 <= unit.1 <= s@.len(),
    ensures
        h@ == host_reply(
            s@.subrange(name.0 as int, name.1 as int),
            s@.subrange(bracketed.0 as int, bracketed.1 as int),
            s@.subrange(number.0 as int, number.1 as int),
            s@.subrange(unit.0 as int, unit.1 as int),
        ),
{
    proof {
        reveal_strlit("-");
    }
    let address = text_of(s, (bracketed.0 + 1, bracketed.1 - 1));
    assert(address@ =~= unbracket(s@.subrange(bracketed.0 as int, bracketed.1 as int)));
    let mut host = text_of(s, name);
    if host == address {
        host = "-".to_owned();
        assert(host@ =~= seq!['-']);
    }
    let h = HopRecord {
        label: String::new(),
        address,
        name: host,
        elapsed: timing_text(s, number, unit),
        kind: ReplyKind::Host,
    };
    assert(h@.label =~= seq![]);
    h
}

/// Reads the `index`-th data line (counted from 0) of the probe tool's
/// output into its hop records, in the order the tool reported them.
pub fn parse_line(line: &str, index: usize) -> (r: Result<Vec<HopRecord>, ParseError>)
    requires
        index < usize::MAX,
    ensures
        outcome(r) == parse_spec(line@, index as nat),
{
    let text = trim_str(line);
    let c = chars_of(text);
    let n = c.len();
    let sep2 = vec![' ', ' '];
    let sep1 = vec![' '];
    assert(sep2@ =~= double_space());
    assert(sep1@ =~= seq![' ']);
    assert(c@.subrange(0, n as int) =~= c@);
    let groups = split_ranges(&c, 0, n, &sep2);
    let ghost g = pieces_of(c@, groups@);
    if groups.len() < 2 {
        return Err(ParseError::NoReplies);
    }
    let mut toks = split_ranges(&c, groups[1].0, groups[1].1, &sep1);
    let mut ti: usize = 0;
    let mut gi: usize = 2;
    let mut out: Vec<HopRecord> = Vec::new();
    assert(pieces_of(c@, toks@).subrange(0, toks@.len() as int) =~= pieces_of(c@, toks@));
    assert(views(out@) =~= seq![]);
    loop
        invariant
            c@ == text@,
            n == c@.len(),
            sep1@ == seq![' '],
            g == pieces_of(c@, groups@),
            g == groups_of(line@),
            2 <= gi <= groups@.len(),
            ti <= toks@.len(),
            forall|k: int| 0 <= k < groups@.len() ==> #[trigger] groups@[k].0 <= groups@[k].1 <= n,
            forall|k: int| 0 <= k < toks@.len() ==> #[trigger] toks@[k].0 <= toks@[k].1 <= n,
            replies(split_on(g[1], seq![' ']), g.subrange(2, g.len() as int)) == join(
                views(out@),
                replies(
                    pieces_of(c@, toks@).subrange(ti as int, toks@.len() as int),
                    g.subrange(gi as int, g.len() as int),
                ),
            ),
        ensures
            ti == toks@.len(),
            gi == groups@.len(),
        decreases groups@.len() - gi, toks@.len() - ti,
    {
        let ghost cur = pieces_of(c@, toks@).subrange(ti as int, toks@.len() as int);
        let ghost rest = g.subrange(gi as int, g.len() as int);
        let ghost before = views(out@);
        if ti == toks.len() {
            if gi == groups.len() {
                break;
            }
            let t = split_ranges(&c, groups[gi].0, groups[gi].1, &sep1);
            if t.len() < 2 {
                return Err(ParseError::Truncated);
            }
            let h = timing_only_record(text, t[0], t[1]);
            proof {
                assert(rest.drop_first() =~= g.subrange(gi + 1, g.len() as int));
                lemma_join_prepend(before, h@, replies(
                    pieces_of(c@, t@).subrange(2, t@.len() as int), rest.drop_first()));
            }
            out.push(h);
            assert(views(out@) =~= before + seq![h@]);
            toks = t;
            ti = 2;
            gi += 1;
        } else if is_star(&c, toks[ti]) {
            let h = no_reply_record();
            proof {
                assert(cur.drop_first() =~= pieces_of(c@, toks@).subrange(ti + 1, toks@.len() as int));
                lemma_join_prepend(before, h@, replies(cur.drop_first(), rest));
            }
            out.push(h);
            assert(views(out@) =~= before + seq![h@]);
            ti += 1;
        } else if ti + 1 >= toks.len() || toks[ti + 1].1 - toks[ti + 1].0 < 2 || gi == groups.len() {
            return Err(ParseError::Truncated);
        } else {
            let t = split_ranges(&c, groups[gi].0, groups[gi].1, &sep1);
            if t.len() < 2 {
                return Err(ParseError::Truncated);
            }
            let h = host_record(text, toks[ti], toks[ti + 1], t[0], t[1]);
            proof {
                assert(rest.drop_first() =~= g.subrange(gi + 1, g.len() as int));
                lemma_join_prepend(before, h@, replies(
                    pieces_of(c@, t@).subrange(2, t@.len() as int), rest.drop_first()));
            }
            out.push(h);
            assert(views(out@) =~= before + seq![h@]);
            toks = t;
            ti = 2;
            gi += 1;
        }
    }
    let ghost rs = views(out@);
    assert(pieces_of(c@, toks@).subrange(ti as int, toks@.len() as int) =~= seq![]);
    assert(g.subrange(gi as int, g.len() as int) =~= seq![]);
    assert(rs + seq![] =~= rs);
    assert(replies(split_on(g[1], seq![' ']), g.subrange(2, g.len() as int)) == Some(rs));
    if out.len() > MAX_REPLIES {
        return Err(ParseError::TooManyReplies);
    }
    let step = decimal_string(index + 1);
    let count = out.len();
    let mut res: Vec<HopRecord> = Vec::new();
    let mut k: usize = 0;
    while k < count
        invariant
            count == out@.len() <= MAX_REPLIES,
            rs == views(out@),
            step@ == decimal((index + 1) as nat),
            k <= count,
            res@.len() == k,
            forall|j: int| 0 <= j < k ==> #[trigger] res@[j]@ == labelled(rs, (index + 1) as nat)[j],
        decreases count - k,
    {
        let mut label = step.clone();
        if count > 1 {
            label.append(letter_str(k));
        }
        let h = &out[k];
        res.push(HopRecord {
            label,
            address: h.address.clone(),
            name: h.name.clone(),
            elapsed: h.elapsed.clone(),
            kind: h.kind,
        });
        k += 1;
    }
    assert(views(res@) =~= labelled(rs, (index + 1) as nat));
    Ok(res)
}

/// The records of the first `n` data lines of `data`, in order, or the error
/// of the first of them that cannot be read.
pub open spec fn parse_lines_spec(data: Seq<Seq<char>>, n: nat) -> Result<Seq<HopView>, ParseError>
    decreases n,
{
    if n == 0 {
        Ok(seq![])
    } else {
        match parse_lines_spec(data, (n - 1) as nat) {
            Err(e) => Err(e),
            Ok(acc) => match parse_spec(data[n - 1], (n - 1) as nat) {
                Err(e) => Err(e),
                Ok(rs) => Ok(acc + rs),
            },
        }
    }
}

proof fn lemma_error_persists(data: Seq<Seq<char>>, m: nat, n: nat)
    requires
        m <= n,
        parse_lines_spec(data, m) is Err,
    ensures
        parse_lines_spec(data, n) == parse_lines_spec(data, m),
    decreases n - m,
{
    if m < n {
        lemma_error_persists(data, m, (n - 1) as nat);
    }
}

/// The lines that follow the probe tool's header line.
pub open spec fn data_lines(lines: Seq<String>) -> Seq<Seq<char>> {
    lines.drop_first().map_values(|l: String| l@)
}

/// Reads the whole output of the probe tool, header line first, into its hop
/// records in order; fails with the error of the first line that cannot be
/// read.
pub fn parse_output(lines: &Vec<String>) -> (r: Result<Vec<HopRecord>, ParseError>)
    ensures
        lines@.len() == 0 ==> outcome(r) == Ok::<Seq<HopView>, ParseError>(seq![]),
        lines@.len() > 0 ==> outcome(r) == parse_lines_spec(
            data_lines(lines@),
            (lines@.len() - 1) as nat,
        ),
{
    let mut out: Vec<HopRecord> = Vec::new();
    if lines.len() == 0 {
        assert(views(out@) =~= seq![]);
        return Ok(out);
    }
    let ghost data = data_lines(lines@);
    let mut i: usize = 1;
    assert(views(out@) =~= seq![]);
    while i < lines.len()
        invariant
            1 <= i <= lines@.len(),
            data == data_lines(lines@),
            parse_lines_spec(data, (i - 1) as nat) == Ok::<Seq<HopView>, ParseError>(views(out@)),
        decreases lines@.len() - i,
    {
        assert(data[i - 1] == lines@[i as int]@);
        match parse_line(lines[i].as_str(), i - 1) {
            Err(e) => {
                proof {
                    assert(parse_lines_spec(data, i as nat) == Err::<Seq<HopView>, ParseError>(e));
                    lemma_error_persists(data, i as nat, (lines@.len() - 1) as nat);
                }
                return Err(e);
            },
            Ok(rs) => {
                let ghost before = views(out@);
                let mut k: usize = 0;
                while k < rs.len()
                    invariant
                        k <= rs@.len(),
                        views(out@) == before + views(rs@).subrange(0, k as int),
                    decreases rs@.len() - k,
                {
                    let ghost prev = views(out@);
                    out.push(rs[k].clone_record());
                    assert(views(out@) =~= prev + seq![rs@[k as int]@]);
                    assert(views(out@) =~= before + views(rs@).subrange(0, k + 1));
                    k += 1;
                }
                assert(views(rs@).subrange(0, rs@.len() as int) =~= views(rs@));
            },
        }
        i += 1;
    }
    Ok(out)
}

} // verus!
