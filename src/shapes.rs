use vstd::prelude::*;
use crate::hop::{
    decimal, double_space, groups_of, host_reply, label_of, labelled, letter, no_reply, parse_spec,
    prepend, replies, timing_only, HopView, ReplyKind, MAX_REPLIES,
};
use crate::text::{find_from, is_white_space, split_on, trim_end, trim_start, trimmed};

verus! {

/// A non-empty run of characters without white space.
pub open spec fn is_word(t: Seq<char>) -> bool {
    t.len() > 0 && forall|j: int| 0 <= j < t.len() ==> !is_white_space(#[trigger] t[j])
}

/// The line in which the probe tool reports one reply for a step:
/// `<step>  <name> (<address>)  <number> <unit>`.
pub open spec fn single_reply_line(
    step: Seq<char>,
    name: Seq<char>,
    address: Seq<char>,
    number: Seq<char>,
    unit: Seq<char>,
) -> Seq<char> {
    step + seq![' ', ' '] + name + seq![' ', '('] + address + seq![')', ' ', ' '] + number + seq![
        ' ',
    ] + unit
}

proof fn lemma_find_first(s: Seq<char>, sep: Seq<char>, k: int, j: int)
    requires
        0 <= j <= k,
        k + sep.len() <= s.len(),
        s.subrange(k, k + sep.len()) == sep,
        forall|m: int| j <= m < k ==> #[trigger] s.subrange(m, m + sep.len()) != sep,
    ensures
        find_from(s, sep, j) == k,
    decreases k - j,
{
    if j < k {
        lemma_find_first(s, sep, k, j + 1);
    }
}

proof fn lemma_find_none(s: Seq<char>, sep: Seq<char>, j: int)
    requires
        0 <= j,
        forall|m: int| j <= m && m + sep.len() <= s.len() ==> #[trigger] s.subrange(m, m + sep.len()) != sep,
    ensures
        find_from(s, sep, j) == -1,
    decreases s.len() + 1 - j,
{
    if j + sep.len() <= s.len() {
        lemma_find_none(s, sep, j + 1);
    }
}

/// Splitting at a first occurrence of `sep` at `k`.
proof fn lemma_split_first(s: Seq<char>, sep: Seq<char>, k: int)
    requires
        sep.len() > 0,
        0 <= k,
        k + sep.len() <= s.len(),
        s.subrange(k, k + sep.len()) == sep,
        forall|m: int| 0 <= m < k ==> #[trigger] s.subrange(m, m + sep.len()) != sep,
    ensures
        split_on(s, sep) == seq![s.subrange(0, k)] + split_on(
            s.subrange(k + sep.len(), s.len() as int),
            sep,
        ),
{
    lemma_find_first(s, sep, k, 0);
}

/// A text without `sep` is one piece.
proof fn lemma_split_whole(s: Seq<char>, sep: Seq<char>)
    requires
        sep.len() > 0,
        forall|m: int| 0 <= m && m + sep.len() <= s.len() ==> #[trigger] s.subrange(m, m + sep.len()) != sep,
    ensures
        split_on(s, sep) == seq![s],
{
    lemma_find_none(s, sep, 0);
}

/// `a + " " + b` splits at its one space when `a` and `b` are words.
proof fn lemma_split_words(a: Seq<char>, b: Seq<char>)
    requires
        is_word(a),
        is_word(b),
    ensures
        split_on(a + seq![' '] + b, seq![' ']) == seq![a, b],
{
    let s = a + seq![' '] + b;
    let sp = seq![' '];
    assert(is_white_space(' '));
    assert(s.subrange(a.len() as int, a.len() + 1 as int) =~= sp);
    assert forall|m: int| 0 <= m < a.len() implies #[trigger] s.subrange(m, m + sp.len()) != sp by {
        assert(s.subrange(m, m + 1)[0] == a[m]);
    }
    lemma_split_first(s, sp, a.len() as int);
    assert(s.subrange(0, a.len() as int) =~= a);
    assert(s.subrange(a.len() + 1 as int, s.len() as int) =~= b);
    assert forall|m: int| 0 <= m && m + sp.len() <= b.len() implies #[trigger] b.subrange(
        m,
        m + sp.len(),
    ) != sp by {
        assert(b.subrange(m, m + 1)[0] == b[m]);
    }
    lemma_split_whole(b, sp);
}

/// The first reply group of a one-reply line: the name and the bracketed
/// address.
pub open spec fn host_group(name: Seq<char>, address: Seq<char>) -> Seq<char> {
    name + seq![' '] + (seq!['('] + address + seq![')'])
}

/// The second reply group of a one-reply line: the timing.
pub open spec fn timing_group(number: Seq<char>, unit: Seq<char>) -> Seq<char> {
    number + seq![' '] + unit
}

proof fn lemma_nothing_to_trim(line: Seq<char>)
    requires
        line.len() > 0,
        !is_white_space(line[0]),
        !is_white_space(line.last()),
    ensures
        trimmed(line) == line,
{
    assert(trim_start(line) == line);
    assert(trim_end(line) == line);
}

proof fn lemma_host_group_has_no_double_space(name: Seq<char>, address: Seq<char>)
    requires
        is_word(name),
        is_word(address),
    ensures
        forall|m: int|
            0 <= m && m + 2 <= host_group(name, address).len() ==> #[trigger] host_group(
                name,
                address,
            ).subrange(m, m + 2) != double_space(),
{
    let g1 = host_group(name, address);
    assert forall|m: int| 0 <= m && m + 2 <= g1.len() implies #[trigger] g1.subrange(m, m + 2)
        != double_space() by {
        let w = g1.subrange(m, m + 2);
        if m < name.len() {
            assert(w[0] == name[m]);
        } else if m == name.len() {
            assert(w[1] == '(');
        } else if m == name.len() + 1 {
            assert(w[0] == '(');
        } else {
            assert(w[0] == address[m - name.len() - 2]);
        }
    }
}

proof fn lemma_groups(
    step: Seq<char>,
    name: Seq<char>,
    address: Seq<char>,
    number: Seq<char>,
    unit: Seq<char>,
)
    requires
        is_word(step),
        is_word(name),
        is_word(address),
        is_word(number),
        is_word(unit),
    ensures
        split_on(single_reply_line(step, name, address, number, unit), double_space()) == seq![
            step,
            host_group(name, address),
            timing_group(number, unit),
        ],
{
    let line = single_reply_line(step, name, address, number, unit);
    let ss = double_space();
    let g1 = host_group(name, address);
    let g2 = timing_group(number, unit);
    let rest = g1 + ss + g2;
    assert(line =~= step + ss + rest);
    assert(line.subrange(step.len() as int, step.len() + 2 as int) =~= ss);
    assert forall|m: int| 0 <= m < step.len() implies #[trigger] line.subrange(m, m + ss.len())
        != ss by {
        assert(line.subrange(m, m + 2)[0] == step[m]);
    }
    lemma_split_first(line, ss, step.len() as int);
    assert(line.subrange(0, step.len() as int) =~= step);
    assert(line.subrange(step.len() + 2 as int, line.len() as int) =~= rest);
    assert(rest.subrange(g1.len() as int, g1.len() + 2 as int) =~= ss);
    lemma_host_group_has_no_double_space(name, address);
    assert forall|m: int| 0 <= m < g1.len() implies #[trigger] rest.subrange(m, m + ss.len())
        != ss by {
        if m + 2 <= g1.len() {
            assert(rest.subrange(m, m + 2) =~= g1.subrange(m, m + 2));
        } else {
            assert(rest.subrange(m, m + 2)[0] == ')');
        }
    }
    lemma_split_first(rest, ss, g1.len() as int);
    assert(rest.subrange(0, g1.len() as int) =~= g1);
    assert(rest.subrange(g1.len() + 2 as int, rest.len() as int) =~= g2);
    assert forall|m: int| 0 <= m && m + ss.len() <= g2.len() implies #[trigger] g2.subrange(
        m,
        m + ss.len(),
    ) != ss by {
        if m < number.len() {
            assert(g2.subrange(m, m + 2)[0] == number[m]);
        } else {
            assert(g2.subrange(m, m + 2)[1] == unit[m + 1 - number.len() - 1]);
        }
    }
    lemma_split_whole(g2, ss);
    assert(split_on(line, ss) =~= seq![step, g1, g2]);
}

/// A line of one reply, with words for its parts, gives exactly one record:
/// a reply from the host, labelled with the bare step number, whose
/// address is the one in brackets and whose timing is the number and unit.
pub proof fn lemma_single_reply_line(
    step: Seq<char>,
    name: Seq<char>,
    address: Seq<char>,
    number: Seq<char>,
    unit: Seq<char>,
    index: nat,
)
    requires
        is_word(step),
        is_word(name),
        is_word(address),
        is_word(number),
        is_word(unit),
        name != seq!['*'],
    ensures
        parse_spec(single_reply_line(step, name, address, number, unit), index) == Ok::<
            Seq<HopView>,
            crate::hop::ParseError,
        >(
            seq![
                HopView {
                    label: decimal(index + 1),
                    address,
                    name: if name == address {
                        seq!['-']
                    } else {
                        name
                    },
                    elapsed: number + seq![' '] + unit,
                    kind: ReplyKind::Host,
                },
            ],
        ),
{
    let line = single_reply_line(step, name, address, number, unit);
    let bracketed = seq!['('] + address + seq![')'];
    let g1 = host_group(name, address);
    let g2 = timing_group(number, unit);
    assert(line[0] == step[0]);
    assert(line.last() == unit.last());
    lemma_nothing_to_trim(line);
    lemma_groups(step, name, address, number, unit);
    assert(is_white_space(' '));
    assert forall|j: int| 0 <= j < bracketed.len() implies !is_white_space(
        #[trigger] bracketed[j],
    ) by {
        if 0 < j < bracketed.len() - 1 {
            assert(bracketed[j] == address[j - 1]);
        }
    }
    lemma_split_words(name, bracketed);
    lemma_split_words(number, unit);
    let groups = seq![step, g1, g2];
    assert(groups_of(line) == groups);
    assert(groups[1] == g1);
    assert(g1 == name + seq![' '] + bracketed);
    let toks = seq![name, bracketed];
    assert(split_on(groups[1], seq![' ']) == toks);
    assert(groups.subrange(2, 3) =~= seq![g2]);
    assert(seq![g2].drop_first() =~= seq![]);
    assert(seq![number, unit].subrange(2, 2) =~= seq![]);
    assert(replies(seq![], seq![]) == Some(Seq::<HopView>::empty()));
    let h = host_reply(name, bracketed, number, unit);
    assert(replies(toks, seq![g2]) == prepend(h, replies(seq![], seq![])));
    assert(seq![h] + Seq::<HopView>::empty() =~= seq![h]);
    assert(crate::hop::unbracket(bracketed) =~= address);
    let expected = seq![
        HopView {
            label: decimal(index + 1),
            address,
            name: if name == address {
                seq!['-']
            } else {
                name
            },
            elapsed: number + seq![' '] + unit,
            kind: ReplyKind::Host,
        },
    ];
    assert(labelled(seq![h], index + 1) =~= expected);
}

/// `k` asterisks separated by single spaces (at least one).
pub open spec fn stars(k: nat) -> Seq<char>
    decreases k,
{
    if k <= 1 {
        seq!['*']
    } else {
        seq!['*', ' '] + stars((k - 1) as nat)
    }
}

/// The line in which the probe tool reports `k` probes of a step without
/// answer: `<step>  * * ...`.
pub open spec fn no_reply_line(step: Seq<char>, k: nat) -> Seq<char> {
    step + seq![' ', ' '] + stars(k)
}

proof fn lemma_stars_shape(k: nat)
    requires
        k >= 1,
    ensures
        stars(k).len() == 2 * k - 1,
        forall|m: int|
            0 <= m < stars(k).len() ==> #[trigger] stars(k)[m] == if m % 2 == 0 {
                '*'
            } else {
                ' '
            },
    decreases k,
{
    if k > 1 {
        lemma_stars_shape((k - 1) as nat);
        let s = stars(k);
        assert forall|m: int| 0 <= m < s.len() implies #[trigger] s[m] == if m % 2 == 0 {
            '*'
        } else {
            ' '
        } by {
            if m >= 2 {
                assert(s[m] == stars((k - 1) as nat)[m - 2]);
            }
        }
    }
}

proof fn lemma_split_stars(k: nat)
    requires
        k >= 1,
    ensures
        split_on(stars(k), seq![' ']) == Seq::new(k, |j: int| seq!['*']),
    decreases k,
{
    let sp = seq![' '];
    let s = stars(k);
    lemma_stars_shape(k);
    if k == 1 {
        assert forall|m: int| 0 <= m && m + sp.len() <= s.len() implies #[trigger] s.subrange(
            m,
            m + sp.len(),
        ) != sp by {
            assert(s.subrange(m, m + 1)[0] == s[m]);
        }
        lemma_split_whole(s, sp);
        assert(Seq::new(k, |j: int| seq!['*']) =~= seq![s]);
    } else {
        lemma_split_stars((k - 1) as nat);
        assert(s.subrange(1, 2) =~= sp);
        assert forall|m: int| 0 <= m < 1 implies #[trigger] s.subrange(m, m + sp.len()) != sp by {
            assert(s.subrange(m, m + 1)[0] == s[m]);
        }
        lemma_split_first(s, sp, 1);
        assert(s.subrange(0, 1) =~= seq!['*']);
        assert(s.subrange(2, s.len() as int) =~= stars((k - 1) as nat));
        assert(Seq::new(k, |j: int| seq!['*']) =~= seq![seq!['*']] + Seq::new(
            (k - 1) as nat,
            |j: int| seq!['*'],
        ));
    }
}

proof fn lemma_replies_stars(n: nat)
    ensures
        replies(Seq::new(n, |j: int| seq!['*']), seq![]) == Some(
            Seq::new(n, |j: int| no_reply()),
        ),
    decreases n,
{
    let toks = Seq::new(n, |j: int| seq!['*']);
    if n == 0 {
        assert(Seq::new(n, |j: int| no_reply()) =~= seq![]);
    } else {
        lemma_replies_stars((n - 1) as nat);
        assert(toks.drop_first() =~= Seq::new((n - 1) as nat, |j: int| seq!['*']));
        assert(seq![no_reply()] + Seq::new((n - 1) as nat, |j: int| no_reply()) =~= Seq::new(
            n,
            |j: int| no_reply(),
        ));
    }
}

/// A line of `k` probes without answer gives `k` such records, in order;
/// with up to eight of them, all carry the step number, and when there are
/// several each has its own letter, `a` first. More than eight are refused.
pub proof fn lemma_no_reply_line(step: Seq<char>, k: nat, index: nat)
    requires
        is_word(step),
        k >= 1,
    ensures
        k <= MAX_REPLIES ==> parse_spec(no_reply_line(step, k), index) == Ok::<
            Seq<HopView>,
            crate::hop::ParseError,
        >(
            Seq::new(
                k,
                |j: int| HopView { label: label_of(index + 1, j, k as int), ..no_reply() },
            ),
        ),
        k > MAX_REPLIES ==> parse_spec(no_reply_line(step, k), index) == Err::<
            Seq<HopView>,
            crate::hop::ParseError,
        >(crate::hop::ParseError::TooManyReplies),
{
    let line = no_reply_line(step, k);
    let ss = double_space();
    let s = stars(k);
    lemma_stars_shape(k);
    assert(line[0] == step[0]);
    assert(line.last() == s.last());
    assert(is_white_space(' '));
    lemma_nothing_to_trim(line);
    assert(line.subrange(step.len() as int, step.len() + 2 as int) =~= ss);
    assert forall|m: int| 0 <= m < step.len() implies #[trigger] line.subrange(m, m + ss.len())
        != ss by {
        assert(line.subrange(m, m + 2)[0] == step[m]);
    }
    lemma_split_first(line, ss, step.len() as int);
    assert(line.subrange(0, step.len() as int) =~= step);
    assert(line.subrange(step.len() + 2 as int, line.len() as int) =~= s);
    assert forall|m: int| 0 <= m && m + ss.len() <= s.len() implies #[trigger] s.subrange(
        m,
        m + ss.len(),
    ) != ss by {
        if m % 2 == 0 {
            assert(s.subrange(m, m + 2)[0] == s[m]);
        } else {
            assert(s.subrange(m, m + 2)[1] == s[m + 1]);
        }
    }
    lemma_split_whole(s, ss);
    let groups = seq![step, s];
    assert(split_on(line, ss) =~= groups);
    assert(groups_of(line) == groups);
    lemma_split_stars(k);
    assert(groups.subrange(2, 2) =~= seq![]);
    lemma_replies_stars(k);
    let rs = Seq::new(k, |j: int| no_reply());
    assert(labelled(rs, index + 1) =~= Seq::new(
        k,
        |j: int| HopView { label: label_of(index + 1, j, k as int), ..no_reply() },
    ));
}

/// `a + "  " + b` splits first after `a` when `a` holds no double space and
/// does not end in a space.
proof fn lemma_split_after(a: Seq<char>, b: Seq<char>)
    requires
        a.len() > 0,
        a.last() != ' ',
        forall|m: int| 0 <= m && m + 2 <= a.len() ==> #[trigger] a.subrange(m, m + 2) != double_space(),
    ensures
        split_on(a + double_space() + b, double_space()) == seq![a] + split_on(b, double_space()),
{
    let ss = double_space();
    let s = a + ss + b;
    assert(s.subrange(a.len() as int, a.len() + 2 as int) =~= ss);
    assert forall|m: int| 0 <= m < a.len() implies #[trigger] s.subrange(m, m + ss.len()) != ss by {
        if m + 2 <= a.len() {
            assert(s.subrange(m, m + 2) =~= a.subrange(m, m + 2));
        } else {
            assert(s.subrange(m, m + 2)[0] == a.last());
        }
    }
    lemma_split_first(s, ss, a.len() as int);
    assert(s.subrange(0, a.len() as int) =~= a);
    assert(s.subrange(a.len() + 2 as int, s.len() as int) =~= b);
}

proof fn lemma_timing_group_has_no_double_space(number: Seq<char>, unit: Seq<char>)
    requires
        is_word(number),
        is_word(unit),
    ensures
        forall|m: int|
            0 <= m && m + 2 <= timing_group(number, unit).len() ==> #[trigger] timing_group(
                number,
                unit,
            ).subrange(m, m + 2) != double_space(),
{
    let g = timing_group(number, unit);
    assert(is_white_space(' '));
    assert forall|m: int| 0 <= m && m + 2 <= g.len() implies #[trigger] g.subrange(m, m + 2)
        != double_space() by {
        if m < number.len() {
            assert(g.subrange(m, m + 2)[0] == number[m]);
        } else {
            assert(g.subrange(m, m + 2)[1] == unit[m + 1 - number.len() - 1]);
        }
    }
}

/// The line in which the probe tool reports a reply for a step followed by
/// a second timing from the same host:
/// `<step>  <name> (<address>)  <number> <unit>  <number2> <unit2>`.
pub open spec fn repeated_timing_line(
    step: Seq<char>,
    name: Seq<char>,
    address: Seq<char>,
    number: Seq<char>,
    unit: Seq<char>,
    number2: Seq<char>,
    unit2: Seq<char>,
) -> Seq<char> {
    single_reply_line(step, name, address, number, unit) + seq![' ', ' '] + number2 + seq![' ']
        + unit2
}

/// A reply followed by a second timing of the same host gives two records
/// labelled with the step number and `a`, `b`: the reply from the host,
/// then a record of the second timing alone, whose address and name are `-`.
pub proof fn lemma_repeated_timing_line(
    step: Seq<char>,
    name: Seq<char>,
    address: Seq<char>,
    number: Seq<char>,
    unit: Seq<char>,
    number2: Seq<char>,
    unit2: Seq<char>,
    index: nat,
)
    requires
        is_word(step),
        is_word(name),
        is_word(address),
        is_word(number),
        is_word(unit),
        is_word(number2),
        is_word(unit2),
        name != seq!['*'],
    ensures
        parse_spec(
            repeated_timing_line(step, name, address, number, unit, number2, unit2),
            index,
        ) == Ok::<Seq<HopView>, crate::hop::ParseError>(
            seq![
                HopView {
                    label: decimal(index + 1) + seq!['a'],
                    address,
                    name: if name == address {
                        seq!['-']
                    } else {
                        name
                    },
                    elapsed: number + seq![' '] + unit,
                    kind: ReplyKind::Host,
                },
                HopView {
                    label: decimal(index + 1) + seq!['b'],
                    address: seq!['-'],
                    name: seq!['-'],
                    elapsed: number2 + seq![' '] + unit2,
                    kind: ReplyKind::TimingOnly,
                },
            ],
        ),
{
    let line = repeated_timing_line(step, name, address, number, unit, number2, unit2);
    let ss = double_space();
    let bracketed = seq!['('] + address + seq![')'];
    let g1 = host_group(name, address);
    let g2 = timing_group(number, unit);
    let g3 = timing_group(number2, unit2);
    assert(is_white_space(' '));
    assert(line =~= step + ss + (g1 + ss + (g2 + ss + g3)));
    assert(line[0] == step[0]);
    assert(line.last() == unit2.last());
    lemma_nothing_to_trim(line);
    assert forall|m: int| 0 <= m && m + 2 <= step.len() implies #[trigger] step.subrange(m, m + 2)
        != ss by {
        assert(step.subrange(m, m + 2)[0] == step[m]);
    }
    lemma_split_after(step, g1 + ss + (g2 + ss + g3));
    lemma_host_group_has_no_double_space(name, address);
    assert(g1.last() == ')');
    lemma_split_after(g1, g2 + ss + g3);
    lemma_timing_group_has_no_double_space(number, unit);
    assert(g2.last() == unit.last());
    lemma_split_after(g2, g3);
    lemma_timing_group_has_no_double_space(number2, unit2);
    lemma_split_whole(g3, ss);
    let groups = seq![step, g1, g2, g3];
    assert(split_on(line, ss) =~= groups);
    assert(groups_of(line) == groups);
    assert forall|j: int| 0 <= j < bracketed.len() implies !is_white_space(
        #[trigger] bracketed[j],
    ) by {
        if 0 < j < bracketed.len() - 1 {
            assert(bracketed[j] == address[j - 1]);
        }
    }
    lemma_split_words(name, bracketed);
    lemma_split_words(number, unit);
    lemma_split_words(number2, unit2);
    let toks = seq![name, bracketed];
    assert(g1 == name + seq![' '] + bracketed);
    assert(split_on(groups[1], seq![' ']) == toks);
    let rest = groups.subrange(2, 4);
    assert(rest =~= seq![g2, g3]);
    assert(rest.drop_first() =~= seq![g3]);
    assert(seq![g3].drop_first() =~= seq![]);
    assert(seq![number, unit].subrange(2, 2) =~= seq![]);
    assert(seq![number2, unit2].subrange(2, 2) =~= seq![]);
    let h = host_reply(name, bracketed, number, unit);
    let second = timing_only(number2, unit2);
    assert(replies(seq![], seq![]) == Some(Seq::<HopView>::empty()));
    assert(replies(seq![], seq![g3]) == prepend(second, replies(seq![], seq![])));
    assert(seq![second] + Seq::<HopView>::empty() =~= seq![second]);
    assert(replies(toks, rest) == prepend(h, replies(seq![], seq![g3])));
    assert(seq![h] + seq![second] =~= seq![h, second]);
    assert(crate::hop::unbracket(bracketed) =~= address);
    let expected = seq![
        HopView {
            label: decimal(index + 1) + seq!['a'],
            address,
            name: if name == address {
                seq!['-']
            } else {
                name
            },
            elapsed: number + seq![' '] + unit,
            kind: ReplyKind::Host,
        },
        HopView {
            label: decimal(index + 1) + seq!['b'],
            address: seq!['-'],
            name: seq!['-'],
            elapsed: number2 + seq![' '] + unit2,
            kind: ReplyKind::TimingOnly,
        },
    ];
    assert(letter(0) == 'a' && letter(1) == 'b');
    assert(labelled(seq![h, second], index + 1) =~= expected);
}

} // verus!
