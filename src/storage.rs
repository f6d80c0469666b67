//! The line-oriented macro text format:
//!
//! ```text
//! hold W+A for 50ms
//! tap SPACE
//! wait 100ms
//! move 10 -5
//! scroll up 3
//! ```

use crate::event::{MacroState, RecordedEvent, StateView};
use crate::timeline::{compress, events_to_states, expand, states_to_events};
use crate::keymap::{lemma_catalog_names, catalog_code, catalog_name, code_of_name, entry_code, entry_name, name_to_keycode, CATALOG_LEN};
use crate::text::{
    find_from, find_str, is_ws, lemma_dec_parses, lemma_find_from_bounds, lemma_signed_dec, lemma_trim_idempotent, lemma_split_append, lemma_split_single, lemma_split_two, lemma_find_at, lemma_find_none, lemma_trim_unchanged, lemma_two_words, has_prefix, has_suffix, parse_i32, parse_i32_str, parse_unsigned,
    parse_unsigned_str, push_dec, push_signed, dec, signed_dec, split_char, split_on_char, split_words, starts_at, trim, trim_str, words,
};
use std::collections::HashSet;
use vstd::prelude::*;

verus! {

broadcast use vstd::std_specs::hash::group_hash_axioms;

/// Why a line of macro text was rejected.
#[derive(Clone, Copy, Debug, PartialEq, Eq, Structural)]
pub enum ParseErrorKind {
    UnknownCommand,
    HoldSyntax,
    MoveSyntax,
    ScrollSyntax,
    BadCoordinate,
    BadScrollAmount,
    BadScrollDirection,
    BadDuration,
    MissingDurationUnit,
    UnknownKey,
}

/// A rejected line: what was wrong, and the text it was wrong about.
#[derive(Clone, Debug)]
pub struct ParseError {
    pub kind: ParseErrorKind,
    pub text: String,
}

impl View for ParseError {
    type V = (ParseErrorKind, Seq<char>);

    open spec fn view(&self) -> (ParseErrorKind, Seq<char>) {
        (self.kind, self.text@)
    }
}

fn parse_error(kind: ParseErrorKind, text: &str) -> (r: ParseError)
    ensures
        r@ == (kind, text@),
{
    ParseError { kind, text: text.to_owned() }
}

/// `s` after its first `p.len()` characters.
pub open spec fn after(s: Seq<char>, p: Seq<char>) -> Seq<char> {
    s.subrange(p.len() as int, s.len() as int)
}

/// A duration: a decimal count followed by `ms`, or by `s` for seconds.
pub open spec fn duration_spec(s: Seq<char>) -> Result<u64, (ParseErrorKind, Seq<char>)> {
    if has_suffix(s, "ms"@) {
        match parse_unsigned(s.subrange(0, s.len() - "ms"@.len()), u64::MAX as nat) {
            Some(v) => Ok(v as u64),
            None => Err((ParseErrorKind::BadDuration, s)),
        }
    } else if has_suffix(s, "s"@) {
        match parse_unsigned(s.subrange(0, s.len() - "s"@.len()), u64::MAX as nat) {
            Some(v) => if v * 1000 <= u64::MAX {
                Ok((v * 1000) as u64)
            } else {
                Err((ParseErrorKind::BadDuration, s))
            },
            None => Err((ParseErrorKind::BadDuration, s)),
        }
    } else {
        Err((ParseErrorKind::MissingDurationUnit, s))
    }
}

/// The key codes named by `names`, or the first name (trimmed) that the
/// catalog does not know.
pub open spec fn keys_of(names: Seq<Seq<char>>) -> Result<Set<u16>, (ParseErrorKind, Seq<char>)>
    decreases names.len(),
{
    if names.len() == 0 {
        Ok(Set::empty())
    } else {
        match keys_of(names.drop_last()) {
            Err(e) => Err(e),
            Ok(set) => match code_of_name(trim(names.last())) {
                Some(c) => Ok(set.insert(c)),
                None => Err((ParseErrorKind::UnknownKey, trim(names.last()))),
            },
        }
    }
}

proof fn lemma_keys_error_persists(names: Seq<Seq<char>>, k: int)
    requires
        0 <= k <= names.len(),
        keys_of(names.subrange(0, k)) is Err,
    ensures
        keys_of(names) == keys_of(names.subrange(0, k)),
    decreases names.len(),
{
    if k < names.len() {
        assert(names.drop_last().subrange(0, k) =~= names.subrange(0, k));
        lemma_keys_error_persists(names.drop_last(), k);
    } else {
        assert(names.subrange(0, k) =~= names);
    }
}

/// A `+`-separated list of key names.
pub open spec fn keys_spec(s: Seq<char>) -> Result<Set<u16>, (ParseErrorKind, Seq<char>)> {
    keys_of(split_char(s, '+'))
}

pub open spec fn keys_state(duration_ms: u64, keys: Set<u16>) -> StateView {
    StateView { duration_ms, keys, mouse_delta: (0, 0), scroll_delta: (0, 0) }
}

/// `hold KEYS for DURATION`, where `t` is the whole line and `rest` follows `hold `.
pub open spec fn hold_spec(t: Seq<char>, rest: Seq<char>) -> Result<
    StateView,
    (ParseErrorKind, Seq<char>),
> {
    match find_from(rest, " for "@, 0) {
        None => Err((ParseErrorKind::HoldSyntax, t)),
        Some(i) => if find_from(rest, " for "@, i + " for "@.len()) is Some {
            Err((ParseErrorKind::HoldSyntax, t))
        } else {
            match duration_spec(rest.subrange(i + " for "@.len(), rest.len() as int)) {
                Err(e) => Err(e),
                Ok(d) => match keys_spec(rest.subrange(0, i)) {
                    Err(e) => Err(e),
                    Ok(k) => Ok(keys_state(d, k)),
                },
            }
        },
    }
}

/// `move DX DY`.
pub open spec fn move_spec(t: Seq<char>, rest: Seq<char>) -> Result<
    StateView,
    (ParseErrorKind, Seq<char>),
> {
    let w = words(rest);
    if w.len() != 2 {
        Err((ParseErrorKind::MoveSyntax, t))
    } else {
        match parse_i32(w[0]) {
            None => Err((ParseErrorKind::BadCoordinate, w[0])),
            Some(x) => match parse_i32(w[1]) {
                None => Err((ParseErrorKind::BadCoordinate, w[1])),
                Some(y) => Ok(
                    StateView {
                        duration_ms: 0,
                        keys: Set::empty(),
                        mouse_delta: (x, y),
                        scroll_delta: (0, 0),
                    },
                ),
            },
        }
    }
}

/// The scroll delta `(vertical, horizontal)` of `amount` ticks in direction `dir`.
pub open spec fn scroll_delta_of(dir: Seq<char>, amount: i32) -> Option<(i32, i32)> {
    if dir == "up"@ {
        Some((amount, 0))
    } else if dir == "down"@ {
        if amount == i32::MIN { None } else { Some(((-amount) as i32, 0)) }
    } else if dir == "left"@ {
        if amount == i32::MIN { None } else { Some((0, (-amount) as i32)) }
    } else if dir == "right"@ {
        Some((0, amount))
    } else {
        None
    }
}

/// `scroll DIRECTION AMOUNT`.
pub open spec fn scroll_spec(t: Seq<char>, rest: Seq<char>) -> Result<
    StateView,
    (ParseErrorKind, Seq<char>),
> {
    let w = words(rest);
    if w.len() != 2 {
        Err((ParseErrorKind::ScrollSyntax, t))
    } else {
        match parse_i32(w[1]) {
            None => Err((ParseErrorKind::BadScrollAmount, w[1])),
            Some(a) => {
                let known = w[0] == "up"@ || w[0] == "down"@ || w[0] == "left"@ || w[0] == "right"@;
                match scroll_delta_of(w[0], a) {
                    Some(d) => Ok(
                        StateView {
                            duration_ms: 0,
                            keys: Set::empty(),
                            mouse_delta: (0, 0),
                            scroll_delta: d,
                        },
                    ),
                    None => if known {
                        Err((ParseErrorKind::BadScrollAmount, w[1]))
                    } else {
                        Err((ParseErrorKind::BadScrollDirection, w[0]))
                    },
                }
            },
        }
    }
}

/// What one line of macro text denotes.
pub open spec fn line_spec(line: Seq<char>) -> Result<StateView, (ParseErrorKind, Seq<char>)> {
    let t = trim(line);
    if has_prefix(t, "hold "@) {
        hold_spec(t, after(t, "hold "@))
    } else if has_prefix(t, "wait "@) {
        match duration_spec(after(t, "wait "@)) {
            Err(e) => Err(e),
            Ok(d) => Ok(keys_state(d, Set::empty())),
        }
    } else if has_prefix(t, "move "@) {
        move_spec(t, after(t, "move "@))
    } else if has_prefix(t, "scroll "@) {
        scroll_spec(t, after(t, "scroll "@))
    } else if has_prefix(t, "tap "@) {
        match keys_spec(after(t, "tap "@)) {
            Err(e) => Err(e),
            Ok(k) => Ok(keys_state(0, k)),
        }
    } else {
        Err((ParseErrorKind::UnknownCommand, t))
    }
}

/// Whether `s` ends with `p`.
fn ends_with(s: &str, p: &str) -> (r: bool)
    ensures
        r == has_suffix(s@, p@),
{
    let n = s.unicode_len();
    let m = p.unicode_len();
    if m > n {
        return false;
    }
    let r = starts_at(s, n - m, p);
    assert(s@.subrange(n - m, n as int).subrange(0, m as int) =~= s@.subrange(n - m, n as int));
    r
}

/// Parses a duration such as `100ms` or `2s` into milliseconds.
pub fn parse_duration(s: &str) -> (r: Result<u64, ParseError>)
    ensures
        match r {
            Ok(v) => duration_spec(s@) == Ok::<u64, (ParseErrorKind, Seq<char>)>(v),
            Err(e) => duration_spec(s@) == Err::<u64, (ParseErrorKind, Seq<char>)>(e@),
        },
{
    let n = s.unicode_len();
    if ends_with(s, "ms") {
        let digits = s.substring_char(0, n - "ms".unicode_len());
        match parse_unsigned_str(digits, u64::MAX) {
            Some(v) => Ok(v),
            None => Err(parse_error(ParseErrorKind::BadDuration, s)),
        }
    } else if ends_with(s, "s") {
        let digits = s.substring_char(0, n - "s".unicode_len());
        match parse_unsigned_str(digits, u64::MAX) {
            Some(v) => match v.checked_mul(1000) {
                Some(ms) => Ok(ms),
                None => Err(parse_error(ParseErrorKind::BadDuration, s)),
            },
            None => Err(parse_error(ParseErrorKind::BadDuration, s)),
        }
    } else {
        Err(parse_error(ParseErrorKind::MissingDurationUnit, s))
    }
}

/// Parses key names joined by `+` (such as `W+A+SHIFT`) into key codes.
pub fn parse_keys(s: &str) -> (r: Result<HashSet<u16>, ParseError>)
    ensures
        match r {
            Ok(k) => keys_spec(s@) == Ok::<Set<u16>, (ParseErrorKind, Seq<char>)>(k@),
            Err(e) => keys_spec(s@) == Err::<Set<u16>, (ParseErrorKind, Seq<char>)>(e@),
        },
{
    let names = split_on_char(s, '+');
    let ghost all = split_char(s@, '+');
    let mut keycodes: HashSet<u16> = HashSet::new();
    let mut i: usize = 0;
    while i < names.len()
        invariant
            all == split_char(s@, '+'),
            names@.len() == all.len(),
            forall|k: int| 0 <= k < names@.len() ==> (#[trigger] names@[k])@ == all[k],
            i <= names@.len(),
            keys_of(all.subrange(0, i as int)) == Ok::<Set<u16>, (ParseErrorKind, Seq<char>)>(
                keycodes@,
            ),
        decreases names@.len() - i,
    {
        assert(all.subrange(0, i + 1).drop_last() =~= all.subrange(0, i as int));
        let name = trim_str(names[i]);
        match name_to_keycode(name) {
            Some(code) => {
                keycodes.insert(code);
            },
            None => {
                assert(all.subrange(0, i + 1).last() == all[i as int]);
                proof {
                    lemma_keys_error_persists(all, i + 1);
                }
                return Err(parse_error(ParseErrorKind::UnknownKey, name));
            },
        }
        i = i + 1;
    }
    assert(all.subrange(0, i as int) =~= all);
    Ok(keycodes)
}

fn plain_state(duration_ms: u64, keys_pressed: HashSet<u16>) -> (r: MacroState)
    ensures
        r@ == keys_state(duration_ms, keys_pressed@),
{
    MacroState { duration_ms, keys_pressed, mouse_delta: (0, 0), scroll_delta: (0, 0) }
}

fn parse_hold(t: &str, rest: &str) -> (r: Result<MacroState, ParseError>)
    ensures
        match r {
            Ok(st) => hold_spec(t@, rest@) == Ok::<StateView, (ParseErrorKind, Seq<char>)>(st@),
            Err(e) => hold_spec(t@, rest@) == Err::<StateView, (ParseErrorKind, Seq<char>)>(e@),
        },
{
    let sep = " for ";
    proof {
        reveal_strlit(" for ");
    }
    let m = sep.unicode_len();
    let n = rest.unicode_len();
    match find_str(rest, sep, 0) {
        None => Err(parse_error(ParseErrorKind::HoldSyntax, t)),
        Some(i) => {
            proof {
                lemma_find_from_bounds(rest@, sep@, 0);
            }
            if find_str(rest, sep, i + m).is_some() {
                return Err(parse_error(ParseErrorKind::HoldSyntax, t));
            }
            let duration_ms = parse_duration(rest.substring_char(i + m, n))?;
            let keys = parse_keys(rest.substring_char(0, i))?;
            Ok(plain_state(duration_ms, keys))
        },
    }
}

fn parse_move(t: &str, rest: &str) -> (r: Result<MacroState, ParseError>)
    ensures
        match r {
            Ok(st) => move_spec(t@, rest@) == Ok::<StateView, (ParseErrorKind, Seq<char>)>(st@),
            Err(e) => move_spec(t@, rest@) == Err::<StateView, (ParseErrorKind, Seq<char>)>(e@),
        },
{
    let parts = split_words(rest);
    if parts.len() != 2 {
        return Err(parse_error(ParseErrorKind::MoveSyntax, t));
    }
    let x = match parse_i32_str(parts[0]) {
        Some(x) => x,
        None => return Err(parse_error(ParseErrorKind::BadCoordinate, parts[0])),
    };
    let y = match parse_i32_str(parts[1]) {
        Some(y) => y,
        None => return Err(parse_error(ParseErrorKind::BadCoordinate, parts[1])),
    };
    Ok(MacroState { duration_ms: 0, keys_pressed: HashSet::new(), mouse_delta: (x, y), scroll_delta: (0, 0) })
}

fn parse_scroll(t: &str, rest: &str) -> (r: Result<MacroState, ParseError>)
    ensures
        match r {
            Ok(st) => scroll_spec(t@, rest@) == Ok::<StateView, (ParseErrorKind, Seq<char>)>(st@),
            Err(e) => scroll_spec(t@, rest@) == Err::<StateView, (ParseErrorKind, Seq<char>)>(e@),
        },
{
    let parts = split_words(rest);
    if parts.len() != 2 {
        return Err(parse_error(ParseErrorKind::ScrollSyntax, t));
    }
    let direction = parts[0];
    let amount = match parse_i32_str(parts[1]) {
        Some(a) => a,
        None => return Err(parse_error(ParseErrorKind::BadScrollAmount, parts[1])),
    };
    let scroll_delta = if crate::keymap::str_eq(direction, "up") {
        (amount, 0)
    } else if crate::keymap::str_eq(direction, "down") {
        if amount == i32::MIN {
            return Err(parse_error(ParseErrorKind::BadScrollAmount, parts[1]));
        }
        (-amount, 0)
    } else if crate::keymap::str_eq(direction, "left") {
        if amount == i32::MIN {
            return Err(parse_error(ParseErrorKind::BadScrollAmount, parts[1]));
        }
        (0, -amount)
    } else if crate::keymap::str_eq(direction, "right") {
        (0, amount)
    } else {
        return Err(parse_error(ParseErrorKind::BadScrollDirection, direction));
    };
    Ok(MacroState { duration_ms: 0, keys_pressed: HashSet::new(), mouse_delta: (0, 0), scroll_delta })
}

/// Parses one line of macro text into the state it describes.
pub fn parse_line(line: &str) -> (r: Result<MacroState, ParseError>)
    ensures
        match r {
            Ok(st) => line_spec(line@) == Ok::<StateView, (ParseErrorKind, Seq<char>)>(st@),
            Err(e) => line_spec(line@) == Err::<StateView, (ParseErrorKind, Seq<char>)>(e@),
        },
{
    let t = trim_str(line);
    let n = t.unicode_len();
    if starts_at(t, 0, "hold ") {
        assert(t@.subrange(0, n as int) =~= t@);
        let rest = t.substring_char("hold ".unicode_len(), n);
        return parse_hold(t, rest);
    }
    assert(t@.subrange(0, n as int) =~= t@);
    if starts_at(t, 0, "wait ") {
        let rest = t.substring_char("wait ".unicode_len(), n);
        let duration_ms = parse_duration(rest)?;
        return Ok(plain_state(duration_ms, HashSet::new()));
    }
    if starts_at(t, 0, "move ") {
        let rest = t.substring_char("move ".unicode_len(), n);
        return parse_move(t, rest);
    }
    if starts_at(t, 0, "scroll ") {
        let rest = t.substring_char("scroll ".unicode_len(), n);
        return parse_scroll(t, rest);
    }
    if starts_at(t, 0, "tap ") {
        let rest = t.substring_char("tap ".unicode_len(), n);
        let keys = parse_keys(rest)?;
        return Ok(plain_state(0, keys));
    }
    Err(parse_error(ParseErrorKind::UnknownCommand, t))
}

/// The names of the catalog entries before position `n` whose codes are in
/// `keys`, in catalog order (which is ascending order of names).
pub open spec fn key_names(keys: Set<u16>, n: int) -> Seq<Seq<char>>
    decreases n,
{
    if n <= 0 {
        Seq::empty()
    } else if keys.contains(catalog_code((n - 1) as usize)) {
        key_names(keys, n - 1).push(catalog_name((n - 1) as usize))
    } else {
        key_names(keys, n - 1)
    }
}

/// The pieces joined with `sep` between each two of them.
pub open spec fn join(ps: Seq<Seq<char>>, sep: Seq<char>) -> Seq<char>
    decreases ps.len(),
{
    if ps.len() == 0 {
        Seq::empty()
    } else if ps.len() == 1 {
        ps[0]
    } else {
        join(ps.drop_last(), sep) + sep + ps.last()
    }
}

/// The key names of a key set joined by `+`.
pub open spec fn keys_text(keys: Set<u16>) -> Seq<char> {
    join(key_names(keys, CATALOG_LEN as int), "+"@)
}

pub open spec fn key_lines(st: StateView) -> Seq<Seq<char>> {
    if st.keys.is_empty() {
        Seq::empty()
    } else if st.duration_ms > 0 {
        seq!["hold "@ + keys_text(st.keys) + " for "@ + dec(st.duration_ms as nat) + "ms"@]
    } else {
        seq!["tap "@ + keys_text(st.keys)]
    }
}

pub open spec fn move_lines(st: StateView) -> Seq<Seq<char>> {
    if st.mouse_delta == (0i32, 0i32) {
        Seq::empty()
    } else {
        seq![
            "move "@ + signed_dec(st.mouse_delta.0 as int) + " "@ + signed_dec(
                st.mouse_delta.1 as int,
            ),
        ]
    }
}

pub open spec fn abs(v: i32) -> nat {
    if v < 0 { (-v) as nat } else { v as nat }
}

pub open spec fn scroll_lines(st: StateView) -> Seq<Seq<char>> {
    let (v, h) = st.scroll_delta;
    let vl = if v == 0 {
        Seq::empty()
    } else if v > 0 {
        seq!["scroll up "@ + dec(abs(v))]
    } else {
        seq!["scroll down "@ + dec(abs(v))]
    };
    let hl = if h == 0 {
        Seq::empty()
    } else if h > 0 {
        seq!["scroll right "@ + dec(abs(h))]
    } else {
        seq!["scroll left "@ + dec(abs(h))]
    };
    vl + hl
}

pub open spec fn wait_lines(st: StateView) -> Seq<Seq<char>> {
    if st.duration_ms > 0 && st.keys.is_empty() {
        seq!["wait "@ + dec(st.duration_ms as nat) + "ms"@]
    } else {
        Seq::empty()
    }
}

/// The lines that a state is written as: keys, then motion, then vertical and
/// horizontal scroll, then a wait for a duration that no key line carries;
/// a comment when there is nothing to write.
pub open spec fn state_lines(st: StateView) -> Seq<Seq<char>> {
    let all = key_lines(st) + move_lines(st) + scroll_lines(st) + wait_lines(st);
    if all.len() == 0 {
        seq!["# empty state"@]
    } else {
        all
    }
}

/// The text of a state: its lines joined by newlines.
pub open spec fn format_spec(st: StateView) -> Seq<char> {
    join(state_lines(st), "\n"@)
}

/// Appends `piece` to the text of `ps` joined by `sep`.
fn push_joined(out: &mut String, count: usize, sep: &str, piece: &str, ps: Ghost<Seq<Seq<char>>>)
    requires
        old(out)@ == join(ps@, sep@),
        count == ps@.len(),
    ensures
        final(out)@ == join(ps@.push(piece@), sep@),
{
    assert(ps@.push(piece@).drop_last() =~= ps@);
    if count > 0 {
        out.append(sep);
    }
    out.append(piece);
    if count == 0 {
        assert(final(out)@ =~= piece@);
    }
}

/// The key names of `keys` in catalog order, joined by `+`.
fn format_keys(keys: &HashSet<u16>) -> (r: String)
    ensures
        r@ == keys_text(keys@),
{
    let mut out = String::new();
    let mut count: usize = 0;
    let mut i: usize = 0;
    while i < CATALOG_LEN
        invariant
            i <= CATALOG_LEN,
            count == key_names(keys@, i as int).len(),
            count <= i,
            out@ == join(key_names(keys@, i as int), "+"@),
        decreases CATALOG_LEN - i,
    {
        let code = entry_code(i);
        if keys.contains(&code) {
            push_joined(&mut out, count, "+", entry_name(i), Ghost(key_names(keys@, i as int)));
            count = count + 1;
        }
        i = i + 1;
    }
    out
}

fn text_of(s: &str) -> (r: String)
    ensures
        r@ == s@,
{
    s.to_owned()
}

/// Writes a state as macro text: one line per action, joined by newlines.
pub fn format_state(state: &MacroState) -> (r: String)
    ensures
        r@ == format_spec(state@),
{
    let ghost st = state@;
    let mut lines: Vec<String> = Vec::new();
    if !state.keys_pressed.is_empty() {
        let keys = format_keys(&state.keys_pressed);
        if state.duration_ms > 0 {
            let mut l = text_of("hold ");
            l.append(keys.as_str());
            l.append(" for ");
            push_dec(&mut l, state.duration_ms);
            l.append("ms");
            lines.push(l);
        } else {
            let mut l = text_of("tap ");
            l.append(keys.as_str());
            lines.push(l);
        }
    }
    assert(lines@.map_values(|l: String| l@) =~= key_lines(st));
    if state.mouse_delta.0 != 0 || state.mouse_delta.1 != 0 {
        let mut l = text_of("move ");
        push_signed(&mut l, state.mouse_delta.0);
        l.append(" ");
        push_signed(&mut l, state.mouse_delta.1);
        lines.push(l);
    }
    assert(lines@.map_values(|l: String| l@) =~= key_lines(st) + move_lines(st));
    let (v, h) = state.scroll_delta;
    if v != 0 {
        let mut l = if v > 0 { text_of("scroll up ") } else { text_of("scroll down ") };
        push_dec(&mut l, magnitude(v));
        lines.push(l);
    }
    if h != 0 {
        let mut l = if h > 0 { text_of("scroll right ") } else { text_of("scroll left ") };
        push_dec(&mut l, magnitude(h));
        lines.push(l);
    }
    assert(lines@.map_values(|l: String| l@) =~= key_lines(st) + move_lines(st) + scroll_lines(st));
    if state.duration_ms > 0 && state.keys_pressed.is_empty() {
        let mut l = text_of("wait ");
        push_dec(&mut l, state.duration_ms);
        l.append("ms");
        lines.push(l);
    }
    if lines.len() == 0 {
        lines.push(text_of("# empty state"));
    }
    assert(lines@.map_values(|l: String| l@) =~= state_lines(st));
    join_lines(&lines)
}

fn magnitude(v: i32) -> (r: u64)
    ensures
        r as nat == abs(v),
{
    if v < 0 {
        (0 - (v as i64)) as u64
    } else {
        v as u64
    }
}

/// The lines joined by newlines.
fn join_lines(lines: &Vec<String>) -> (r: String)
    ensures
        r@ == join(lines@.map_values(|l: String| l@), "\n"@),
{
    let ghost all = lines@.map_values(|l: String| l@);
    let mut out = String::new();
    let mut i: usize = 0;
    while i < lines.len()
        invariant
            i <= lines@.len(),
            all == lines@.map_values(|l: String| l@),
            out@ == join(all.subrange(0, i as int), "\n"@),
        decreases lines@.len() - i,
    {
        push_joined(&mut out, i, "\n", lines[i].as_str(), Ghost(all.subrange(0, i as int)));
        assert(all.subrange(0, i as int).push(lines@[i as int]@) =~= all.subrange(0, i + 1));
        i = i + 1;
    }
    assert(all.subrange(0, i as int) =~= all);
    out
}

/// A line of macro text that could not be read, with its 1-based number.
#[derive(Clone, Debug)]
pub struct LoadError {
    pub line: usize,
    pub error: ParseError,
}

impl View for LoadError {
    type V = (nat, (ParseErrorKind, Seq<char>));

    open spec fn view(&self) -> (nat, (ParseErrorKind, Seq<char>)) {
        (self.line as nat, self.error@)
    }
}

/// Blank lines and `#` comments carry no state.
pub open spec fn skipped(t: Seq<char>) -> bool {
    t.len() == 0 || t[0] == '#'
}

/// The states of a sequence of lines, or the first bad line and its number.
pub open spec fn states_of_lines(lines: Seq<Seq<char>>) -> Result<
    Seq<StateView>,
    (nat, (ParseErrorKind, Seq<char>)),
>
    decreases lines.len(),
{
    if lines.len() == 0 {
        Ok(Seq::empty())
    } else {
        match states_of_lines(lines.drop_last()) {
            Err(e) => Err(e),
            Ok(v) => {
                let t = trim(lines.last());
                if skipped(t) {
                    Ok(v)
                } else {
                    match line_spec(t) {
                        Ok(st) => Ok(v.push(st)),
                        Err(e) => Err((lines.len(), e)),
                    }
                }
            },
        }
    }
}

/// What a whole macro text denotes.
pub open spec fn document_spec(text: Seq<char>) -> Result<
    Seq<StateView>,
    (nat, (ParseErrorKind, Seq<char>)),
> {
    states_of_lines(split_char(text, '\n'))
}

proof fn lemma_lines_error_persists(lines: Seq<Seq<char>>, k: int)
    requires
        0 <= k <= lines.len(),
        states_of_lines(lines.subrange(0, k)) is Err,
    ensures
        states_of_lines(lines) == states_of_lines(lines.subrange(0, k)),
    decreases lines.len(),
{
    if k < lines.len() {
        assert(lines.drop_last().subrange(0, k) =~= lines.subrange(0, k));
        lemma_lines_error_persists(lines.drop_last(), k);
    } else {
        assert(lines.subrange(0, k) =~= lines);
    }
}

/// Reads a whole macro text: blank lines and `#` comments are skipped, every
/// other line is one state, and the first bad line stops the reading.
pub fn parse_macro(text: &str) -> (r: Result<Vec<MacroState>, LoadError>)
    ensures
        match r {
            Ok(v) => document_spec(text@) == Ok::<
                Seq<StateView>,
                (nat, (ParseErrorKind, Seq<char>)),
            >(v@.map_values(|s: MacroState| s@)),
            Err(e) => document_spec(text@) == Err::<
                Seq<StateView>,
                (nat, (ParseErrorKind, Seq<char>)),
            >(e@),
        },
{
    let lines = split_on_char(text, '\n');
    let ghost all = split_char(text@, '\n');
    let mut states: Vec<MacroState> = Vec::new();
    assert(states@.map_values(|s: MacroState| s@) =~= Seq::<StateView>::empty());
    let mut i: usize = 0;
    while i < lines.len()
        invariant
            all == split_char(text@, '\n'),
            lines@.len() == all.len(),
            forall|k: int| 0 <= k < lines@.len() ==> (#[trigger] lines@[k])@ == all[k],
            i <= lines@.len(),
            states_of_lines(all.subrange(0, i as int)) == Ok::<
                Seq<StateView>,
                (nat, (ParseErrorKind, Seq<char>)),
            >(states@.map_values(|s: MacroState| s@)),
        decreases lines@.len() - i,
    {
        let ghost prefix = all.subrange(0, i + 1);
        assert(prefix.drop_last() =~= all.subrange(0, i as int));
        assert(prefix.last() == all[i as int]);
        let t = trim_str(lines[i]);
        let blank = t.unicode_len() == 0 || t.get_char(0) == '#';
        if !blank {
            match parse_line(t) {
                Ok(st) => {
                    states.push(st);
                    assert(states@.map_values(|s: MacroState| s@) =~= states_of_lines(prefix)->Ok_0);
                },
                Err(error) => {
                    proof {
                        lemma_lines_error_persists(all, i + 1);
                    }
                    return Err(LoadError { line: i + 1, error });
                },
            }
        }
        i = i + 1;
    }
    assert(all.subrange(0, i as int) =~= all);
    Ok(states)
}

/// The first lines of every macro file.
pub open spec fn header_text() -> Seq<char> {
    "# EvKey Macro\n# Layout: QWERTY\n\n"@
}

/// The states written one after another, each followed by a newline.
pub open spec fn body_text(states: Seq<StateView>) -> Seq<char>
    decreases states.len(),
{
    if states.len() == 0 {
        Seq::empty()
    } else {
        body_text(states.drop_last()) + format_spec(states.last()) + "\n"@
    }
}

/// Writes states as a macro text: a short comment header, then the states.
pub fn render_states(states: &Vec<MacroState>) -> (r: String)
    ensures
        r@ == header_text() + body_text(states@.map_values(|s: MacroState| s@)),
{
    let ghost all = states@.map_values(|s: MacroState| s@);
    let mut out = text_of("# EvKey Macro\n# Layout: QWERTY\n\n");
    assert(out@ =~= header_text() + body_text(all.subrange(0, 0)));
    let mut i: usize = 0;
    while i < states.len()
        invariant
            i <= states@.len(),
            all == states@.map_values(|s: MacroState| s@),
            out@ == header_text() + body_text(all.subrange(0, i as int)),
        decreases states@.len() - i,
    {
        assert(all.subrange(0, i + 1).drop_last() =~= all.subrange(0, i as int));
        assert(all.subrange(0, i + 1).last() == states@[i as int]@);
        let line = format_state(&states[i]);
        out.append(line.as_str());
        out.append("\n");
        assert(out@ =~= header_text() + body_text(all.subrange(0, i + 1)));
        i = i + 1;
    }
    assert(all.subrange(0, i as int) =~= all);
    out
}

/// The macro text of a recorded log: the log compressed, then written.
pub fn serialize_events(events: &Vec<RecordedEvent>) -> (r: String)
    ensures
        r@ == header_text() + body_text(compress(events@)),
{
    let states = events_to_states(events);
    render_states(&states)
}

/// The event log of a macro text: the text read, then expanded.
pub fn deserialize_events(text: &str) -> (r: Result<Vec<RecordedEvent>, LoadError>)
    ensures
        match r {
            Ok(v) => document_spec(text@) matches Ok(states) && v@ == expand(states),
            Err(e) => document_spec(text@) == Err::<
                Seq<StateView>,
                (nat, (ParseErrorKind, Seq<char>)),
            >(e@),
        },
{
    let states = parse_macro(text)?;
    Ok(states_to_events(&states))
}

/// A state without keys that one line can hold: a wait, a move, or a scroll
/// along one axis.
pub open spec fn single_line_keyless(st: StateView) -> bool {
    &&& st.keys.is_empty()
    &&& {
        ||| (st.duration_ms > 0 && st.mouse_delta == (0i32, 0i32) && st.scroll_delta == (
            0i32,
            0i32,
        ))
        ||| (st.duration_ms == 0 && st.mouse_delta != (0i32, 0i32) && st.scroll_delta == (
            0i32,
            0i32,
        ) && st.mouse_delta.0 != i32::MIN && st.mouse_delta.1 != i32::MIN)
        ||| (st.duration_ms == 0 && st.mouse_delta == (0i32, 0i32) && st.scroll_delta.0 != 0
            && st.scroll_delta.1 == 0 && st.scroll_delta.0 != i32::MIN)
        ||| (st.duration_ms == 0 && st.mouse_delta == (0i32, 0i32) && st.scroll_delta.0 == 0
            && st.scroll_delta.1 != 0 && st.scroll_delta.1 != i32::MIN)
    }
}

proof fn lemma_duration_text(d: u64)
    ensures
        duration_spec(dec(d as nat) + "ms"@) == Ok::<u64, (ParseErrorKind, Seq<char>)>(d),
{
    reveal_strlit("ms");
    let x = dec(d as nat) + "ms"@;
    lemma_dec_parses(d as nat, u64::MAX as nat);
    assert(x.subrange(x.len() - 2, x.len() as int) =~= "ms"@);
    assert(x.subrange(0, x.len() - 2) =~= dec(d as nat));
}

proof fn lemma_scroll_words(dir: Seq<char>, v: nat)
    requires
        dir.len() > 0,
        forall|k: int| 0 <= k < dir.len() ==> !is_ws(#[trigger] dir[k]),
        v <= i32::MAX,
    ensures
        words(dir + " "@ + dec(v)) == seq![dir, dec(v)],
        parse_i32(dec(v)) == Some(v as i32),
{
    reveal_strlit(" ");
    assert(" "@ =~= seq![' ']);
    lemma_dec_parses(v, 0x7fff_ffff);
    lemma_two_words(dir, dec(v));
    assert(dec(v)[0] != '-');
}

proof fn lemma_wait_round_trip(st: StateView)
    requires
        single_line_keyless(st),
        st.duration_ms > 0,
    ensures
        line_spec(format_spec(st)) == Ok::<StateView, (ParseErrorKind, Seq<char>)>(st),
{
    reveal_strlit("hold ");
    reveal_strlit("wait ");
    reveal_strlit("ms");
    assert(st.keys =~= Set::<u16>::empty());
    let line = "wait "@ + dec(st.duration_ms as nat) + "ms"@;
    assert(state_lines(st) =~= seq![line]);
    lemma_dec_parses(st.duration_ms as nat, u64::MAX as nat);
    assert(line[0] == 'w');
    assert(line.last() == 's');
    lemma_trim_unchanged(line);
    assert(line.subrange(0, 5) =~= "wait "@);
    assert(after(line, "wait "@) =~= dec(st.duration_ms as nat) + "ms"@);
    lemma_duration_text(st.duration_ms);
}

proof fn lemma_move_round_trip(st: StateView)
    requires
        single_line_keyless(st),
        st.duration_ms == 0,
        st.mouse_delta != (0i32, 0i32),
    ensures
        line_spec(format_spec(st)) == Ok::<StateView, (ParseErrorKind, Seq<char>)>(st),
{
    reveal_strlit("hold ");
    reveal_strlit("wait ");
    reveal_strlit("move ");
    reveal_strlit(" ");
    assert(st.keys =~= Set::<u16>::empty());
    let (dx, dy) = st.mouse_delta;
    let a = signed_dec(dx as int);
    let b = signed_dec(dy as int);
    let line = "move "@ + a + " "@ + b;
    assert(state_lines(st) =~= seq![line]);
    lemma_signed_dec(dx);
    lemma_signed_dec(dy);
    assert(line[0] == 'm');
    assert(line.last() == b.last());
    lemma_trim_unchanged(line);
    assert(line.subrange(0, 5) =~= "move "@);
    assert(after(line, "move "@) =~= a + seq![' '] + b);
    lemma_two_words(a, b);
}

proof fn lemma_scroll_round_trip(st: StateView, dir: Seq<char>, m: nat)
    requires
        single_line_keyless(st),
        st.duration_ms == 0,
        st.mouse_delta == (0i32, 0i32),
        dir.len() > 0,
        forall|k: int| 0 <= k < dir.len() ==> !is_ws(#[trigger] dir[k]),
        m <= i32::MAX,
        state_lines(st) == seq!["scroll "@ + (dir + " "@ + dec(m))],
        scroll_delta_of(dir, m as i32) == Some(st.scroll_delta),
    ensures
        line_spec(format_spec(st)) == Ok::<StateView, (ParseErrorKind, Seq<char>)>(st),
{
    reveal_strlit("hold ");
    reveal_strlit("wait ");
    reveal_strlit("move ");
    reveal_strlit("scroll ");
    let line = "scroll "@ + (dir + " "@ + dec(m));
    assert(st.keys =~= Set::<u16>::empty());
    lemma_scroll_words(dir, m);
    lemma_dec_parses(m, 0x7fff_ffff);
    assert(line[0] == 's');
    assert(line.last() == dec(m).last());
    lemma_trim_unchanged(line);
    assert(line.subrange(0, 7) =~= "scroll "@);
    assert(after(line, "scroll "@) =~= dir + " "@ + dec(m));
}

proof fn lemma_scroll_lines(st: StateView)
    requires
        single_line_keyless(st),
        st.duration_ms == 0,
        st.mouse_delta == (0i32, 0i32),
    ensures
        line_spec(format_spec(st)) == Ok::<StateView, (ParseErrorKind, Seq<char>)>(st),
{
    reveal_strlit("scroll up ");
    reveal_strlit("scroll down ");
    reveal_strlit("scroll left ");
    reveal_strlit("scroll right ");
    reveal_strlit("scroll ");
    reveal_strlit(" ");
    reveal_strlit("up");
    reveal_strlit("down");
    reveal_strlit("left");
    reveal_strlit("right");
    let (v, h) = st.scroll_delta;
    assert(key_lines(st) =~= Seq::<Seq<char>>::empty());
    assert(move_lines(st) =~= Seq::<Seq<char>>::empty());
    assert(wait_lines(st) =~= Seq::<Seq<char>>::empty());
    if v > 0 {
        assert("scroll up "@ + dec(abs(v)) =~= "scroll "@ + ("up"@ + " "@ + dec(v as nat)));
        assert(scroll_lines(st) =~= seq!["scroll "@ + ("up"@ + " "@ + dec(v as nat))]);
        assert(state_lines(st) =~= seq!["scroll "@ + ("up"@ + " "@ + dec(v as nat))]);
        lemma_scroll_round_trip(st, "up"@, v as nat);
    } else if v < 0 {
        assert("scroll down "@ + dec(abs(v)) =~= "scroll "@ + ("down"@ + " "@ + dec((-v) as nat)));
        assert(scroll_lines(st) =~= seq!["scroll "@ + ("down"@ + " "@ + dec((-v) as nat))]);
        assert(state_lines(st) =~= seq!["scroll "@ + ("down"@ + " "@ + dec((-v) as nat))]);
        assert("down"@ != "up"@);
        lemma_scroll_round_trip(st, "down"@, (-v) as nat);
    } else if h > 0 {
        assert("scroll right "@ + dec(abs(h)) =~= "scroll "@ + ("right"@ + " "@ + dec(h as nat)));
        assert(scroll_lines(st) =~= seq!["scroll "@ + ("right"@ + " "@ + dec(h as nat))]);
        assert(state_lines(st) =~= seq!["scroll "@ + ("right"@ + " "@ + dec(h as nat))]);
        assert("right"@ != "up"@ && "right"@ != "down"@ && "right"@ != "left"@);
        lemma_scroll_round_trip(st, "right"@, h as nat);
    } else {
        assert("scroll left "@ + dec(abs(h)) =~= "scroll "@ + ("left"@ + " "@ + dec((-h) as nat)));
        assert(scroll_lines(st) =~= seq!["scroll "@ + ("left"@ + " "@ + dec((-h) as nat))]);
        assert(state_lines(st) =~= seq!["scroll "@ + ("left"@ + " "@ + dec((-h) as nat))]);
        assert("left"@ != "up"@ && "left"@ != "down"@);
        lemma_scroll_round_trip(st, "left"@, (-h) as nat);
    }
}

/// A state without keys that fits on one line (a wait, a move, or a scroll
/// along one axis) is read back from its text as itself.
pub proof fn lemma_keyless_line_round_trip(st: StateView)
    requires
        single_line_keyless(st),
    ensures
        line_spec(format_spec(st)) == Ok::<StateView, (ParseErrorKind, Seq<char>)>(st),
{
    if st.duration_ms > 0 {
        lemma_wait_round_trip(st);
    } else if st.mouse_delta != (0i32, 0i32) {
        lemma_move_round_trip(st);
    } else {
        lemma_scroll_lines(st);
    }
}

/// A state of scroll along one axis that lasts a while is written as two
/// lines, a scroll and then a wait, which read back as a scroll that takes
/// no time followed by a wait as long as the state.
pub proof fn lemma_scroll_then_wait(st: StateView)
    requires
        st.keys.is_empty(),
        st.mouse_delta == (0i32, 0i32),
        st.duration_ms > 0,
        (st.scroll_delta.0 != 0 && st.scroll_delta.1 == 0 && st.scroll_delta.0 != i32::MIN) || (
        st.scroll_delta.0 == 0 && st.scroll_delta.1 != 0 && st.scroll_delta.1 != i32::MIN),
    ensures
        state_lines(st).len() == 2,
        line_spec(state_lines(st)[0]) == Ok::<StateView, (ParseErrorKind, Seq<char>)>(
            StateView { duration_ms: 0, ..st },
        ),
        line_spec(state_lines(st)[1]) == Ok::<StateView, (ParseErrorKind, Seq<char>)>(
            keys_state(st.duration_ms, Set::empty()),
        ),
{
    let st0 = StateView { duration_ms: 0, ..st };
    let stw = keys_state(st.duration_ms, Set::empty());
    assert(key_lines(st) =~= Seq::<Seq<char>>::empty());
    assert(move_lines(st) =~= Seq::<Seq<char>>::empty());
    assert(key_lines(st0) =~= Seq::<Seq<char>>::empty());
    assert(move_lines(st0) =~= Seq::<Seq<char>>::empty());
    assert(wait_lines(st0) =~= Seq::<Seq<char>>::empty());
    assert(scroll_lines(st).len() == 1);
    assert(state_lines(st0) =~= scroll_lines(st));
    assert(key_lines(stw) =~= Seq::<Seq<char>>::empty());
    assert(move_lines(stw) =~= Seq::<Seq<char>>::empty());
    assert(scroll_lines(stw) =~= Seq::<Seq<char>>::empty());
    assert(state_lines(stw) =~= wait_lines(st));
    assert(state_lines(st) =~= scroll_lines(st) + wait_lines(st));
    lemma_keyless_line_round_trip(st0);
    lemma_keyless_line_round_trip(stw);
}

/// The order in which two keys are listed does not matter, unless neither
/// is known (then each order reports its own first name).
pub proof fn lemma_key_order(a: Seq<char>, b: Seq<char>)
    requires
        !a.contains('+'),
        !b.contains('+'),
        code_of_name(trim(a)) is Some || code_of_name(trim(b)) is Some,
    ensures
        keys_spec(a + seq!['+'] + b) == keys_spec(b + seq!['+'] + a),
{
    lemma_split_two(a, b, '+');
    lemma_split_two(b, a, '+');
    let ab = seq![a, b];
    let ba = seq![b, a];
    assert(ab.drop_last() =~= seq![a]);
    assert(ba.drop_last() =~= seq![b]);
    assert(seq![a].drop_last() =~= Seq::<Seq<char>>::empty());
    assert(seq![b].drop_last() =~= Seq::<Seq<char>>::empty());
    assert(keys_of(Seq::<Seq<char>>::empty()) == Ok::<Set<u16>, (ParseErrorKind, Seq<char>)>(
        Set::empty(),
    ));
    assert(ab.last() == b && ba.last() == a && seq![a].last() == a && seq![b].last() == b);
    let ka = keys_of(seq![a]);
    let kb = keys_of(seq![b]);
    assert(keys_of(ab) == match ka {
        Err(e) => Err(e),
        Ok(set) => match code_of_name(trim(b)) {
            Some(c) => Ok(set.insert(c)),
            None => Err((ParseErrorKind::UnknownKey, trim(b))),
        },
    });
    assert(keys_of(ba) == match kb {
        Err(e) => Err(e),
        Ok(set) => match code_of_name(trim(a)) {
            Some(c) => Ok(set.insert(c)),
            None => Err((ParseErrorKind::UnknownKey, trim(a))),
        },
    });
    if let (Some(x), Some(y)) = (code_of_name(trim(a)), code_of_name(trim(b))) {
        assert(Set::<u16>::empty().insert(x).insert(y) =~= Set::<u16>::empty().insert(y).insert(x));
    }
}

/// The codes of the catalog entries before position `n`.
pub open spec fn catalog_codes(n: int) -> Set<u16>
    decreases n,
{
    if n <= 0 {
        Set::empty()
    } else {
        catalog_codes(n - 1).insert(catalog_code((n - 1) as usize))
    }
}

pub open spec fn plain_piece(s: Seq<char>) -> bool {
    s.len() > 0 && forall|k: int| 0 <= k < s.len() ==> !is_ws(#[trigger] s[k]) && s[k] != '+'
}

proof fn lemma_join_plain(names: Seq<Seq<char>>)
    requires
        names.len() > 0,
        forall|i: int| 0 <= i < names.len() ==> plain_piece(#[trigger] names[i]),
    ensures
        join(names, "+"@).len() > 0,
        forall|k: int| 0 <= k < join(names, "+"@).len() ==> !is_ws(#[trigger] join(names, "+"@)[k]),
        join(names, "+"@)[0] == names[0][0],
        join(names, "+"@).last() == names.last().last(),
        split_char(join(names, "+"@), '+') == names,
    decreases names.len(),
{
    reveal_strlit("+");
    assert("+"@ =~= seq!['+']);
    let last = names.last();
    assert(plain_piece(last));
    assert(!last.contains('+'));
    if names.len() == 1 {
        lemma_split_single(last, '+');
        assert(seq![last] =~= names);
    } else {
        let prev = names.drop_last();
        assert forall|i: int| 0 <= i < prev.len() implies plain_piece(#[trigger] prev[i]) by {
            assert(prev[i] == names[i]);
        }
        lemma_join_plain(prev);
        let j = join(prev, "+"@);
        lemma_split_append(j, last, '+', 0, 0);
        assert(prev.push(last) =~= names);
        let whole = j + seq!['+'] + last;
        assert(join(names, "+"@) == whole);
        assert forall|k: int| 0 <= k < whole.len() implies !is_ws(#[trigger] whole[k]) by {
            if k < j.len() {
                assert(whole[k] == j[k]);
            } else if k > j.len() {
                assert(whole[k] == last[k - j.len() - 1]);
            }
        }
        assert(whole[0] == j[0]);
        assert(prev[0] == names[0]);
    }
}

proof fn lemma_key_names(keys: Set<u16>, n: int)
    requires
        0 <= n <= CATALOG_LEN,
    ensures
        forall|i: int|
            0 <= i < key_names(keys, n).len() ==> plain_piece(#[trigger] key_names(keys, n)[i]),
        keys_of(key_names(keys, n)) == Ok::<Set<u16>, (ParseErrorKind, Seq<char>)>(
            keys.intersect(catalog_codes(n)),
        ),
        key_names(keys, n).len() == 0 ==> keys.intersect(catalog_codes(n)).is_empty(),
    decreases n,
{
    if n == 0 {
        assert(keys.intersect(catalog_codes(0)) =~= Set::<u16>::empty());
    } else {
        lemma_key_names(keys, n - 1);
        let prev = key_names(keys, n - 1);
        let code = catalog_code((n - 1) as usize);
        let name = catalog_name((n - 1) as usize);
        if keys.contains(code) {
            lemma_catalog_names(n - 1);
            let names = prev.push(name);
            assert(names.drop_last() =~= prev);
            assert(plain_piece(name));
            lemma_trim_unchanged(name);
            assert forall|i: int| 0 <= i < names.len() implies plain_piece(#[trigger] names[i]) by {
                if i < prev.len() {
                    assert(names[i] == prev[i]);
                }
            }
            assert(keys.intersect(catalog_codes(n - 1)).insert(code) =~= keys.intersect(
                catalog_codes(n),
            ));
        } else {
            assert(keys.intersect(catalog_codes(n - 1)) =~= keys.intersect(catalog_codes(n)));
        }
    }
}

/// The text of a non-empty set of catalog keys reads back as that set.
proof fn lemma_keys_text(keys: Set<u16>)
    requires
        !keys.is_empty(),
        keys.subset_of(catalog_codes(CATALOG_LEN as int)),
    ensures
        keys_spec(keys_text(keys)) == Ok::<Set<u16>, (ParseErrorKind, Seq<char>)>(keys),
        keys_text(keys).len() > 0,
        forall|k: int| 0 <= k < keys_text(keys).len() ==> !is_ws(#[trigger] keys_text(keys)[k]),
{
    lemma_key_names(keys, CATALOG_LEN as int);
    assert(keys.intersect(catalog_codes(CATALOG_LEN as int)) =~= keys);
    lemma_join_plain(key_names(keys, CATALOG_LEN as int));
}

/// A state that one line can hold (a hold or a tap of catalog keys, a wait,
/// a move, or a scroll along one axis).
pub open spec fn single_line(st: StateView) -> bool {
    ||| single_line_keyless(st)
    ||| (!st.keys.is_empty() && st.keys.subset_of(catalog_codes(CATALOG_LEN as int))
        && st.mouse_delta == (0i32, 0i32) && st.scroll_delta == (0i32, 0i32))
}

proof fn lemma_hold_round_trip(st: StateView)
    requires
        single_line(st),
        !st.keys.is_empty(),
        st.duration_ms > 0,
    ensures
        line_spec(format_spec(st)) == Ok::<StateView, (ParseErrorKind, Seq<char>)>(st),
{
    reveal_strlit("hold ");
    reveal_strlit(" for ");
    reveal_strlit("ms");
    let kt = keys_text(st.keys);
    lemma_keys_text(st.keys);
    let d = dec(st.duration_ms as nat);
    lemma_dec_parses(st.duration_ms as nat, u64::MAX as nat);
    let line = "hold "@ + kt + " for "@ + d + "ms"@;
    assert(state_lines(st) =~= seq![line]);
    assert(line[0] == 'h');
    assert(line.last() == 's');
    lemma_trim_unchanged(line);
    assert(line.subrange(0, 5) =~= "hold "@);
    let rest = kt + " for "@ + d + "ms"@;
    assert(after(line, "hold "@) =~= rest);
    let n = kt.len() as int;
    assert(rest.subrange(n, n + 5) =~= " for "@);
    assert forall|k: int| 0 <= k < n implies #[trigger] rest[k] != " for "@[0] by {
        assert(rest[k] == kt[k]);
    }
    lemma_find_at(rest, " for "@, 0, n);
    assert forall|k: int| n + 5 <= k < rest.len() implies #[trigger] rest[k] != " for "@[0] by {
        if k < n + 5 + d.len() {
            assert(rest[k] == d[k - n - 5]);
        }
    }
    lemma_find_none(rest, " for "@, n + 5);
    assert(rest.subrange(n + 5, rest.len() as int) =~= d + "ms"@);
    lemma_duration_text(st.duration_ms);
    assert(rest.subrange(0, n) =~= kt);
}

proof fn lemma_tap_round_trip(st: StateView)
    requires
        single_line(st),
        !st.keys.is_empty(),
        st.duration_ms == 0,
    ensures
        line_spec(format_spec(st)) == Ok::<StateView, (ParseErrorKind, Seq<char>)>(st),
{
    reveal_strlit("hold ");
    reveal_strlit("wait ");
    reveal_strlit("move ");
    reveal_strlit("scroll ");
    reveal_strlit("tap ");
    let kt = keys_text(st.keys);
    lemma_keys_text(st.keys);
    let line = "tap "@ + kt;
    assert(state_lines(st) =~= seq![line]);
    assert(line[0] == 't');
    assert(line.last() == kt.last());
    lemma_trim_unchanged(line);
    assert(line.subrange(0, 4) =~= "tap "@);
    assert(after(line, "tap "@) =~= kt);
}

/// Every state that one line can hold is read back from its text as itself.
pub proof fn lemma_line_round_trip(st: StateView)
    requires
        single_line(st),
    ensures
        line_spec(format_spec(st)) == Ok::<StateView, (ParseErrorKind, Seq<char>)>(st),
{
    if st.keys.is_empty() {
        lemma_keyless_line_round_trip(st);
    } else if st.duration_ms > 0 {
        lemma_hold_round_trip(st);
    } else {
        lemma_tap_round_trip(st);
    }
}

/// Every character is a space or not whitespace at all (so not a newline).
pub open spec fn line_chars(s: Seq<char>) -> bool {
    forall|k: int| 0 <= k < s.len() ==> s[k] == ' ' || !is_ws(#[trigger] s[k])
}

proof fn lemma_line_chars_concat(a: Seq<char>, b: Seq<char>)
    requires
        line_chars(a),
        line_chars(b),
    ensures
        line_chars(a + b),
{
    assert forall|k: int| 0 <= k < (a + b).len() implies (a + b)[k] == ' ' || !is_ws(
        #[trigger] (a + b)[k],
    ) by {
        if k < a.len() {
            assert((a + b)[k] == a[k]);
        } else {
            assert((a + b)[k] == b[k - a.len()]);
        }
    }
}

proof fn lemma_dec_chars(n: nat)
    ensures
        line_chars(dec(n)),
{
    lemma_dec_parses(n, n);
}

proof fn lemma_literal_chars()
    ensures
        line_chars("hold "@),
        line_chars(" for "@),
        line_chars("ms"@),
        line_chars("tap "@),
        line_chars("wait "@),
        line_chars("move "@),
        line_chars(" "@),
        line_chars("scroll up "@),
        line_chars("scroll down "@),
        line_chars("scroll left "@),
        line_chars("scroll right "@),
{
    reveal_strlit("hold ");
    reveal_strlit(" for ");
    reveal_strlit("ms");
    reveal_strlit("tap ");
    reveal_strlit("wait ");
    reveal_strlit("move ");
    reveal_strlit(" ");
    reveal_strlit("scroll up ");
    reveal_strlit("scroll down ");
    reveal_strlit("scroll left ");
    reveal_strlit("scroll right ");
}

/// The text of a state that one line can hold is that one line.
proof fn lemma_format_single(st: StateView)
    requires
        single_line(st),
    ensures
        state_lines(st).len() == 1,
        format_spec(st) == state_lines(st)[0],
        line_chars(format_spec(st)),
{
    lemma_literal_chars();
    let (dx, dy) = st.mouse_delta;
    let (v, h) = st.scroll_delta;
    if !st.keys.is_empty() {
        lemma_keys_text(st.keys);
        let kt = keys_text(st.keys);
        assert(line_chars(kt));
        assert(move_lines(st) =~= Seq::<Seq<char>>::empty());
        assert(scroll_lines(st) =~= Seq::<Seq<char>>::empty());
        assert(wait_lines(st) =~= Seq::<Seq<char>>::empty());
        if st.duration_ms > 0 {
            let d = dec(st.duration_ms as nat);
            lemma_dec_chars(st.duration_ms as nat);
            assert(state_lines(st) =~= seq!["hold "@ + kt + " for "@ + d + "ms"@]);
            lemma_line_chars_concat("hold "@, kt);
            lemma_line_chars_concat("hold "@ + kt, " for "@);
            lemma_line_chars_concat("hold "@ + kt + " for "@, d);
            lemma_line_chars_concat("hold "@ + kt + " for "@ + d, "ms"@);
        } else {
            assert(state_lines(st) =~= seq!["tap "@ + kt]);
            lemma_line_chars_concat("tap "@, kt);
        }
    } else {
        assert(st.keys =~= Set::<u16>::empty());
        assert(key_lines(st) =~= Seq::<Seq<char>>::empty());
        if st.duration_ms > 0 {
            let d = dec(st.duration_ms as nat);
            lemma_dec_chars(st.duration_ms as nat);
            assert(state_lines(st) =~= seq!["wait "@ + d + "ms"@]);
            lemma_line_chars_concat("wait "@, d);
            lemma_line_chars_concat("wait "@ + d, "ms"@);
        } else if st.mouse_delta != (0i32, 0i32) {
            let a = signed_dec(dx as int);
            let b = signed_dec(dy as int);
            lemma_signed_dec(dx);
            lemma_signed_dec(dy);
            assert(state_lines(st) =~= seq!["move "@ + a + " "@ + b]);
            lemma_line_chars_concat("move "@, a);
            lemma_line_chars_concat("move "@ + a, " "@);
            lemma_line_chars_concat("move "@ + a + " "@, b);
        } else {
            assert(move_lines(st) =~= Seq::<Seq<char>>::empty());
            assert(wait_lines(st) =~= Seq::<Seq<char>>::empty());
            let m = if v != 0 { abs(v) } else { abs(h) };
            let lit = if v > 0 {
                "scroll up "@
            } else if v < 0 {
                "scroll down "@
            } else if h > 0 {
                "scroll right "@
            } else {
                "scroll left "@
            };
            lemma_dec_chars(m);
            assert(state_lines(st) =~= seq![lit + dec(m)]);
            lemma_line_chars_concat(lit, dec(m));
        }
    }
}

/// A line that reads as a state is neither blank nor a comment.
proof fn lemma_read_line_not_skipped(x: Seq<char>)
    requires
        line_spec(x) is Ok,
    ensures
        !skipped(trim(x)),
{
    reveal_strlit("hold ");
    reveal_strlit("wait ");
    reveal_strlit("move ");
    reveal_strlit("scroll ");
    reveal_strlit("tap ");
    let t = trim(x);
    if has_prefix(t, "hold "@) {
        assert(t[0] == t.subrange(0, 5)[0]);
    } else if has_prefix(t, "wait "@) {
        assert(t[0] == t.subrange(0, 5)[0]);
    } else if has_prefix(t, "move "@) {
        assert(t[0] == t.subrange(0, 5)[0]);
    } else if has_prefix(t, "scroll "@) {
        assert(t[0] == t.subrange(0, 7)[0]);
    } else {
        assert(t[0] == t.subrange(0, 4)[0]);
    }
}

/// The lines of a written macro before the last newline: the two header
/// comments, a blank line, and one line per state.
pub open spec fn written_lines(states: Seq<StateView>) -> Seq<Seq<char>> {
    seq!["# EvKey Macro"@, "# Layout: QWERTY"@, Seq::empty()] + states.map_values(
        |st: StateView| format_spec(st),
    )
}

proof fn lemma_header_lines()
    ensures
        header_text().len() > 0,
        header_text().last() == '\n',
        split_char(header_text().drop_last(), '\n') == written_lines(Seq::empty()),
        states_of_lines(written_lines(Seq::empty())) == Ok::<
            Seq<StateView>,
            (nat, (ParseErrorKind, Seq<char>)),
        >(Seq::empty()),
{
    reveal_strlit("# EvKey Macro\n# Layout: QWERTY\n\n");
    reveal_strlit("# EvKey Macro");
    reveal_strlit("# Layout: QWERTY");
    let h1 = "# EvKey Macro"@;
    let h2 = "# Layout: QWERTY"@;
    let e = Seq::<char>::empty();
    assert(header_text().drop_last() =~= h1 + seq!['\n'] + h2 + seq!['\n'] + e);
    assert(!h1.contains('\n'));
    assert(!h2.contains('\n'));
    lemma_split_single(h1, '\n');
    lemma_split_append(h1, h2, '\n', 0, 0);
    lemma_split_append(h1 + seq!['\n'] + h2, e, '\n', 0, 0);
    let lines = written_lines(Seq::empty());
    assert(lines =~= seq![h1, h2, e]);
    lemma_trim_unchanged(h1);
    lemma_trim_unchanged(h2);
    assert(trim(e) =~= e);
    assert(lines.drop_last() =~= seq![h1, h2]);
    assert(seq![h1, h2].drop_last() =~= seq![h1]);
    assert(seq![h1].drop_last() =~= Seq::<Seq<char>>::empty());
    assert(h1[0] == '#' && h2[0] == '#');
    assert(states_of_lines(Seq::<Seq<char>>::empty()) == Ok::<
        Seq<StateView>,
        (nat, (ParseErrorKind, Seq<char>)),
    >(Seq::empty()));
    assert(seq![h1].last() == h1);
    assert(states_of_lines(seq![h1]) == states_of_lines(Seq::<Seq<char>>::empty()));
    assert(seq![h1, h2].last() == h2);
    assert(states_of_lines(seq![h1, h2]) == states_of_lines(seq![h1]));
    assert(lines.last() == e);
    assert(states_of_lines(lines) == states_of_lines(seq![h1, h2]));
}

proof fn lemma_written_step(prev: Seq<StateView>, st: StateView)
    requires
        single_line(st),
        split_char((header_text() + body_text(prev)).drop_last(), '\n') == written_lines(prev),
        states_of_lines(written_lines(prev)) == Ok::<
            Seq<StateView>,
            (nat, (ParseErrorKind, Seq<char>)),
        >(prev),
        (header_text() + body_text(prev)).len() > 0,
        (header_text() + body_text(prev)).last() == '\n',
    ensures
        (header_text() + body_text(prev.push(st))).len() > 0,
        (header_text() + body_text(prev.push(st))).last() == '\n',
        split_char((header_text() + body_text(prev.push(st))).drop_last(), '\n') == written_lines(
            prev.push(st),
        ),
        states_of_lines(written_lines(prev.push(st))) == Ok::<
            Seq<StateView>,
            (nat, (ParseErrorKind, Seq<char>)),
        >(prev.push(st)),
{
    reveal_strlit("\n");
    let states = prev.push(st);
    assert(states.drop_last() =~= prev);
    assert(states.last() == st);
    let t0 = header_text() + body_text(prev);
    let f = format_spec(st);
    lemma_format_single(st);
    lemma_line_round_trip(st);
    assert(!f.contains('\n')) by {
        if f.contains('\n') {
            let k = choose|k: int| 0 <= k < f.len() && f[k] == '\n';
            assert(f[k] == ' ' || !is_ws(f[k]));
        }
    }
    let text = header_text() + body_text(states);
    assert(body_text(states) == body_text(prev) + f + "\n"@);
    assert(text =~= t0 + f + "\n"@);
    assert(t0 =~= t0.drop_last() + seq!['\n']);
    assert(t0.drop_last() + seq!['\n'] + f =~= t0 + f);
    assert(text.drop_last() =~= t0 + f);
    lemma_split_append(t0.drop_last(), f, '\n', 0, 0);
    let lines = written_lines(states);
    assert(lines =~= written_lines(prev).push(f));
    assert(lines.drop_last() =~= written_lines(prev));
    assert(lines.last() == f);
    lemma_read_line_not_skipped(f);
    lemma_trim_idempotent(f);
    assert(line_spec(trim(f)) == line_spec(f));
}

proof fn lemma_written_lines(states: Seq<StateView>)
    requires
        forall|i: int| 0 <= i < states.len() ==> single_line(#[trigger] states[i]),
    ensures
        (header_text() + body_text(states)).len() > 0,
        (header_text() + body_text(states)).last() == '\n',
        split_char((header_text() + body_text(states)).drop_last(), '\n') == written_lines(states),
        states_of_lines(written_lines(states)) == Ok::<
            Seq<StateView>,
            (nat, (ParseErrorKind, Seq<char>)),
        >(states),
    decreases states.len(),
{
    if states.len() == 0 {
        lemma_header_lines();
        assert(states =~= Seq::<StateView>::empty());
        assert(header_text() + body_text(states) =~= header_text());
    } else {
        let prev = states.drop_last();
        assert forall|i: int| 0 <= i < prev.len() implies single_line(#[trigger] prev[i]) by {
            assert(prev[i] == states[i]);
        }
        lemma_written_lines(prev);
        lemma_written_step(prev, states.last());
        assert(prev.push(states.last()) =~= states);
    }
}

/// Reading back a written macro whose states each fit on one line gives the
/// same states.
pub proof fn lemma_document_round_trip(states: Seq<StateView>)
    requires
        forall|i: int| 0 <= i < states.len() ==> single_line(#[trigger] states[i]),
    ensures
        document_spec(header_text() + body_text(states)) == Ok::<
            Seq<StateView>,
            (nat, (ParseErrorKind, Seq<char>)),
        >(states),
{
    lemma_written_lines(states);
    let text = header_text() + body_text(states);
    let e = Seq::<char>::empty();
    assert(text =~= text.drop_last() + seq!['\n'] + e);
    lemma_split_append(text.drop_last(), e, '\n', 0, 0);
    let lines = written_lines(states).push(e);
    assert(lines.drop_last() =~= written_lines(states));
    assert(trim(e) =~= e);
}

} // verus!
