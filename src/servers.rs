//! Server records, the player count, and the table of servers that is shown.

use vstd::prelude::*;

use crate::error::ClientError;
use crate::text::{
    chars_of, contains, occurs_at, contains_str, decimal, fit, push_decimal, push_fit, sanitized,
    sanitized_chars,
};

verus! {

/// One multiplayer server as the site lists it.
#[derive(Debug)]
pub struct Server {
    pub name: String,
    pub mission_name: String,
    /// The number of players, as decimal text; it counts the server itself.
    pub players: String,
}

/// The servers of one reply, in the order the site gave them.
#[derive(Debug)]
pub struct Servers {
    pub servers: Vec<Server>,
}

/// True when every character of `s` is a decimal digit.
pub open spec fn all_digits(s: Seq<char>) -> bool {
    forall|i: int| 0 <= i < s.len() ==> '0' <= #[trigger] s[i] && s[i] <= '9'
}

/// The value of the digit `c`.
pub open spec fn digit_value(c: char) -> int {
    (c as u32) as int - 48
}

/// The value of a run of decimal digits.
pub open spec fn digits_value(s: Seq<char>) -> int
    decreases s.len(),
{
    if s.len() == 0 {
        0
    } else {
        digits_value(s.drop_last()) * 10 + digit_value(s.last())
    }
}

/// The integer that `s` writes: an optional `+` or `-`, then one or more
/// decimal digits, nothing else.
pub open spec fn int_value(s: Seq<char>) -> Option<int> {
    if s.len() > 1 && (s[0] == '-' || s[0] == '+') && all_digits(s.drop_first()) {
        if s[0] == '-' {
            Some(-digits_value(s.drop_first()))
        } else {
            Some(digits_value(s.drop_first()))
        }
    } else if s.len() > 0 && all_digits(s) {
        Some(digits_value(s))
    } else {
        None
    }
}

/// The value of `s` read as an `i32`, when it is one.
pub open spec fn i32_value(s: Seq<char>) -> Option<int> {
    match int_value(s) {
        Some(v) => if i32::MIN <= v <= i32::MAX {
            Some(v)
        } else {
            None
        },
        None => None,
    }
}

/// The players shown for a count of `count`: the server's own slot is not a
/// player.
pub open spec fn shown_players(count: int) -> int {
    count - 1
}

/// The table row of a server with these fields and player count.
pub open spec fn row_text(name: Seq<char>, mission: Seq<char>, count: int) -> Seq<char> {
    fit(sanitized(name), 36) + "   "@ + fit(sanitized(mission), 30) + "   "@ + decimal(
        shown_players(count),
    )
}

/// The table row of `s`, or `None` when its player count is not an `i32`.
pub open spec fn row_of(s: Server) -> Option<Seq<char>> {
    match i32_value(s.players@) {
        Some(v) => Some(row_text(s.name@, s.mission_name@, v)),
        None => None,
    }
}

/// The header line of the table, highlighted, after an empty line.
pub open spec fn header_text() -> Seq<char> {
    "\n\u{1b}[93m"@ + fit("Name"@, 36) + "   "@ + fit("Mission"@, 30) + "   "@ + "Players"@
        + "\u{1b}[0m"@
}

/// The lowercase form of a text, as `str::to_lowercase` gives it.
pub uninterp spec fn lower_of(s: Seq<char>) -> Seq<char>;

/// Relies on `str::to_lowercase`: its result depends on the text alone.
#[verifier::external_body]
pub(crate) fn lowercase(s: &str) -> (r: String)
    ensures
        r@ == lower_of(s@),
{
    s.to_lowercase()
}

/// True when the lowercase name of `s` holds `filter`.
pub open spec fn is_shown(s: Server, filter: Seq<char>) -> bool {
    contains(lower_of(s.name@), filter)
}

/// The servers whose lowercase name holds `filter`, in their order.
pub open spec fn shown(servers: Seq<Server>, filter: Seq<char>) -> Seq<Server> {
    servers.filter(|s: Server| is_shown(s, filter))
}

/// The rows of `servers`, or `None` when one of them has a player count that
/// is not an `i32`.
pub open spec fn rows(servers: Seq<Server>) -> Option<Seq<Seq<char>>>
    decreases servers.len(),
{
    if servers.len() == 0 {
        Some(Seq::empty())
    } else {
        match (rows(servers.drop_last()), row_of(servers.last())) {
            (Some(r), Some(x)) => Some(r.push(x)),
            _ => None,
        }
    }
}


proof fn lemma_digits_value_nonneg(s: Seq<char>)
    requires
        all_digits(s),
    ensures
        digits_value(s) >= 0,
    decreases s.len(),
{
    if s.len() > 0 {
        assert(all_digits(s.drop_last())) by {
            assert forall|i: int| 0 <= i < s.drop_last().len() implies '0' <= #[trigger] s.drop_last()[i]
                && s.drop_last()[i] <= '9' by {
                assert(s.drop_last()[i] == s[i]);
            }
        }
        lemma_digits_value_nonneg(s.drop_last());
        assert('0' <= s[s.len() - 1]);
    }
}

/// Reads `text` as an `i32` the way `str::parse::<i32>` does: an optional
/// sign, then decimal digits only, within the range of `i32`.
pub fn parse_i32(text: &str) -> (r: Option<i32>)
    ensures
        match i32_value(text@) {
            Some(v) => r == Some(v as i32),
            None => r is None,
        },
{
    let c = chars_of(text);
    let n = c.len();
    if n == 0 {
        return None;
    }
    let signed = c[0] == '-' || c[0] == '+';
    let negative = c[0] == '-';
    if signed && n == 1 {
        return None;
    }
    let start: usize = if signed { 1 } else { 0 };
    let ghost body = c@.subrange(start as int, n as int);
    proof {
        if signed {
            assert(body =~= c@.drop_first());
        } else {
            assert(body =~= c@);
        }
    }
    let limit: u64 = 2147483648;
    let mut acc: u64 = 0;
    let mut big = false;
    let mut i: usize = start;
    assert(c@.subrange(start as int, start as int) =~= Seq::<char>::empty());
    while i < n
        invariant
            start <= i <= n,
            n == c.len(),
            c@ == text@,
            n > 0,
            signed == (c@[0] == '-' || c@[0] == '+'),
            negative == (c@[0] == '-'),
            start == (if signed { 1usize } else { 0usize }),
            signed ==> n > 1,
            body == c@.subrange(start as int, n as int),
            signed ==> body == c@.drop_first(),
            !signed ==> body == c@,
            limit == 2147483648,
            all_digits(c@.subrange(start as int, i as int)),
            big ==> digits_value(c@.subrange(start as int, i as int)) > limit,
            !big ==> acc == digits_value(c@.subrange(start as int, i as int)) && acc <= limit,
        decreases n - i,
    {
        let ch = c[i];
        if !('0' <= ch && ch <= '9') {
            proof {
                assert(body[i - start] == ch);
                assert(!all_digits(body));
                if signed {
                    assert(!('0' <= c@[0] && c@[0] <= '9'));
                    assert(!all_digits(c@));
                }
                assert(int_value(text@) is None);
            }
            return None;
        }
        let ghost prev = c@.subrange(start as int, i as int);
        let ghost next = c@.subrange(start as int, i + 1);
        proof {
            assert(next.drop_last() =~= prev);
            assert(next.last() == ch);
            assert(all_digits(next)) by {
                assert forall|j: int| 0 <= j < next.len() implies '0' <= #[trigger] next[j] && next[j]
                    <= '9' by {
                    if j < prev.len() {
                        assert(next[j] == prev[j]);
                    }
                }
            }
            lemma_digits_value_nonneg(prev);
        }
        let d: u64 = if ch == '0' { 0 } else if ch == '1' { 1 } else if ch == '2' { 2 } else if ch
            == '3' { 3 } else if ch == '4' { 4 } else if ch == '5' { 5 } else if ch == '6' { 6 } else if ch
            == '7' { 7 } else if ch == '8' { 8 } else { 9 };
        assert(d == digit_value(ch));
        if !big {
            let v = acc * 10 + d;
            if v > limit {
                big = true;
            } else {
                acc = v;
            }
        }
        i = i + 1;
    }
    assert(c@.subrange(start as int, n as int) == body);
    if big {
        return None;
    }
    if negative {
        Some((0 - (acc as i64)) as i32)
    } else if acc < limit {
        Some(acc as i32)
    } else {
        None
    }
}

/// The table row of `server`, or `None` when its player count is not an
/// `i32`.
pub fn server_row(server: &Server) -> (r: Option<String>)
    ensures
        r.deep_view() == row_of(*server),
{
    match parse_i32(server.players.as_str()) {
        None => None,
        Some(count) => {
            let mut line = String::new();
            push_fit(&mut line, &sanitized_chars(server.name.as_str()), 36);
            line.append("   ");
            push_fit(&mut line, &sanitized_chars(server.mission_name.as_str()), 30);
            line.append("   ");
            push_decimal(&mut line, count as i64 - 1);
            Some(line)
        },
    }
}

/// The header line of the table.
pub fn header_line() -> (r: String)
    ensures
        r@ == header_text(),
{
    let mut line = String::from_str("\n\u{1b}[93m");
    push_fit(&mut line, &chars_of("Name"), 36);
    line.append("   ");
    push_fit(&mut line, &chars_of("Mission"), 30);
    line.append("   ");
    line.append("Players");
    line.append("\u{1b}[0m");
    line
}

/// The lines that show `servers` under `filter`, which is already lowercase:
/// the header, then one row for each server whose lowercase name holds
/// `filter`, in their order. Fails when such a server has a player count that
/// is not an `i32`.
pub fn display_servers(servers: &Servers, filter: &str) -> (r: Result<Vec<String>, ClientError>)
    ensures
        match rows(shown(servers.servers@, filter@)) {
            Some(lines) => r is Ok && r->Ok_0.deep_view() == seq![header_text()] + lines,
            None => r == Err::<Vec<String>, ClientError>(ClientError::NumericParseFailure),
        },
{
    let list = &servers.servers;
    let mut lines: Vec<String> = Vec::new();
    lines.push(header_line());
    let mut failed = false;
    let mut i: usize = 0;
    while i < list.len()
        invariant
            i <= list.len(),
            failed <==> rows(shown(list@.take(i as int), filter@)) is None,
            !failed ==> lines.deep_view() == seq![header_text()] + rows(
                shown(list@.take(i as int), filter@),
            )->Some_0,
        decreases list.len() - i,
    {
        let server = &list[i];
        let ghost before = shown(list@.take(i as int), filter@);
        let lowered = lowercase(server.name.as_str());
        let keep = contains_str(lowered.as_str(), filter);
        proof {
            reveal(Seq::filter);
            assert(list@.take(i + 1).drop_last() =~= list@.take(i as int));
            assert(list@.take(i + 1).last() == *server);
            if keep {
                assert(shown(list@.take(i + 1), filter@) == before.push(*server));
                assert(before.push(*server).drop_last() =~= before);
            } else {
                assert(shown(list@.take(i + 1), filter@) == before);
            }
        }
        if keep && !failed {
            match server_row(server) {
                Some(line) => {
                    proof {
                        assert(rows(before.push(*server)) == Some(rows(before)->Some_0.push(line@)));
                    }
                    let ghost dv0 = lines.deep_view();
                    let ghost added = line@;
                    lines.push(line);
                    assert(lines.deep_view() =~= dv0.push(added));
                    assert(lines.deep_view() =~= seq![header_text()] + rows(
                        shown(list@.take(i + 1), filter@),
                    )->Some_0);
                },
                None => {
                    assert(rows(before.push(*server)) is None);
                    failed = true;
                },
            }
        }
        i = i + 1;
    }
    assert(list@.take(list.len() as int) =~= list@);
    if failed {
        Err(ClientError::NumericParseFailure)
    } else {
        Ok(lines)
    }
}

/// Every server is shown under the empty filter, in its order.
pub proof fn lemma_empty_filter_shows_all(servers: Seq<Server>)
    ensures
        shown(servers, Seq::empty()) == servers,
    decreases servers.len(),
{
    if servers.len() > 0 {
        lemma_empty_filter_shows_all(servers.drop_last());
        reveal(Seq::filter);
        assert(lower_of(servers.last().name@).subrange(0, 0) =~= Seq::<char>::empty());
        assert(occurs_at(lower_of(servers.last().name@), Seq::empty(), 0));
        assert(servers.drop_last().push(servers.last()) =~= servers);
    }
}

/// A server is shown under `filter` exactly when its lowercase name holds
/// `filter`, and the shown servers keep their order.
pub proof fn lemma_shown_exactly_matching(servers: Seq<Server>, filter: Seq<char>)
    ensures
        forall|i: int| 0 <= i < shown(servers, filter).len() ==> is_shown(#[trigger] shown(servers, filter)[i], filter),
        forall|i: int| 0 <= i < servers.len() && is_shown(#[trigger] servers[i], filter) ==> shown(servers, filter).contains(servers[i]),
        shown(servers, filter).len() <= servers.len(),
{
    let f = |s: Server| is_shown(s, filter);
    assert forall|i: int| 0 <= i < shown(servers, filter).len() implies is_shown(#[trigger] shown(servers, filter)[i], filter) by {
        servers.lemma_filter_pred(f, i);
    }
    assert forall|i: int| 0 <= i < servers.len() && is_shown(#[trigger] servers[i], filter) implies shown(servers, filter).contains(servers[i]) by {
        servers.lemma_filter_contains(f, i);
    }
    servers.lemma_filter_len(f);
}

} // verus!
