use vstd::prelude::*;

use crate::types::{Axis, Button, EventKind, MappingError, RawCode, Target};

verus! {

// ---------------------------------------------------------------------------
// Data model
// ---------------------------------------------------------------------------

/// Which half of a native axis a mapping entry reads.
#[derive(Clone, Copy, Debug, PartialEq, Eq, Structural)]
pub enum AxisHalf {
    Full,
    Positive,
    Negative,
}

/// A native control reference on the right-hand side of a mapping entry:
/// a button index (`bN`), an axis index with optional half and inversion
/// (`aN`, `+aN`, `-aN`, `aN~`), or a hat bit (`hN.M`).
#[derive(Clone, Copy, Debug, PartialEq, Eq, Structural)]
pub enum NativeInput {
    Button(u16),
    Axis(u16, AxisHalf, bool),
    Hat(u16, u16),
}

/// One mapping entry: a logical control together with the native code it is
/// read from.
#[derive(Clone, Copy, Debug, PartialEq, Eq, Structural)]
pub struct MapEntry {
    pub target: Target,
    pub input: NativeInput,
}

/// Mathematical model of a mapping table.
#[verifier::ext_equal]
pub struct MappingView {
    pub guid: Seq<char>,
    pub name: Seq<char>,
    pub entries: Seq<MapEntry>,
}

/// A declarative mapping from native codes to logical controls, together with
/// the identity (GUID and display name) of the device it was authored for.
/// Parsed from and serialized to the SDL game-controller text form
/// `GUID,Name,key:value,key:value,...,`.
#[derive(Debug)]
pub struct MappingData {
    guid: Vec<char>,
    name: Vec<char>,
    entries: Vec<MapEntry>,
}

impl View for MappingData {
    type V = MappingView;

    closed spec fn view(&self) -> MappingView {
        MappingView { guid: self.guid@, name: self.name@, entries: self.entries@ }
    }
}

// ---------------------------------------------------------------------------
// Character classes and decimal numbers
// ---------------------------------------------------------------------------

pub open spec fn is_digit(c: char) -> bool {
    '0' <= c && c <= '9'
}

pub open spec fn is_hex_digit(c: char) -> bool {
    is_digit(c) || ('a' <= c && c <= 'f') || ('A' <= c && c <= 'F')
}

pub open spec fn all_digits(s: Seq<char>) -> bool {
    forall|i: int| 0 <= i < s.len() ==> is_digit(#[trigger] s[i])
}

/// Value of a decimal digit string (most significant digit first).
pub open spec fn dec_val(s: Seq<char>) -> int
    decreases s.len(),
{
    if s.len() == 0 {
        0
    } else {
        dec_val(s.drop_last()) * 10 + (s.last() as int - '0' as int)
    }
}

/// A digit string that a mapping value accepts: nonempty, all digits, and a
/// value that fits a native code.
pub open spec fn valid_dec(s: Seq<char>) -> bool {
    s.len() > 0 && all_digits(s) && dec_val(s) <= u16::MAX
}

pub open spec fn digit_char(d: int) -> char {
    if d == 0 { '0' }
    else if d == 1 { '1' }
    else if d == 2 { '2' }
    else if d == 3 { '3' }
    else if d == 4 { '4' }
    else if d == 5 { '5' }
    else if d == 6 { '6' }
    else if d == 7 { '7' }
    else if d == 8 { '8' }
    else { '9' }
}

/// Canonical decimal rendering of a number, no leading zeros.
pub open spec fn dec_of(n: nat) -> Seq<char>
    decreases n,
{
    if n < 10 {
        seq![digit_char(n as int)]
    } else {
        dec_of(n / 10).push(digit_char((n % 10) as int))
    }
}

// ---------------------------------------------------------------------------
// Splitting on commas
// ---------------------------------------------------------------------------

/// Index of the first occurrence of `c` in `s`, or `s.len()` if none.
pub open spec fn first_index_of(s: Seq<char>, c: char) -> int
    decreases s.len(),
{
    if s.len() == 0 {
        0
    } else if s[0] == c {
        0
    } else {
        1 + first_index_of(s.skip(1), c)
    }
}

/// Split on commas; always yields at least one token, and the separators are
/// not part of any token.
pub open spec fn spec_split(s: Seq<char>) -> Seq<Seq<char>>
    decreases s.len(),
{
    if s.len() == 0 {
        seq![Seq::<char>::empty()]
    } else if s[0] == ',' {
        seq![Seq::<char>::empty()] + spec_split(s.skip(1))
    } else {
        let rest = spec_split(s.skip(1));
        seq![seq![s[0]] + rest[0]] + rest.skip(1)
    }
}

pub proof fn lemma_split_len(s: Seq<char>)
    ensures
        spec_split(s).len() >= 1,
    decreases s.len(),
{
    if s.len() != 0 {
        lemma_split_len(s.skip(1));
    }
}

// ---------------------------------------------------------------------------
// Keys: the logical vocabulary in its SDL text form
// ---------------------------------------------------------------------------

/// The text key of a logical control in a mapping line.
pub open spec fn key_of(t: Target) -> Seq<char> {
    match t {
        Target::Btn(Button::South) => seq!['a'],
        Target::Btn(Button::East) => seq!['b'],
        Target::Btn(Button::West) => seq!['x'],
        Target::Btn(Button::North) => seq!['y'],
        Target::Btn(Button::Select) => seq!['b', 'a', 'c', 'k'],
        Target::Btn(Button::Mode) => seq!['g', 'u', 'i', 'd', 'e'],
        Target::Btn(Button::Start) => seq!['s', 't', 'a', 'r', 't'],
        Target::Btn(Button::LeftThumb) => seq!['l', 'e', 'f', 't', 's', 't', 'i', 'c', 'k'],
        Target::Btn(Button::RightThumb) => seq!['r', 'i', 'g', 'h', 't', 's', 't', 'i', 'c', 'k'],
        Target::Btn(Button::LeftTrigger) => seq!['l', 'e', 'f', 't', 's', 'h', 'o', 'u', 'l', 'd', 'e', 'r'],
        Target::Btn(Button::RightTrigger) => seq!['r', 'i', 'g', 'h', 't', 's', 'h', 'o', 'u', 'l', 'd', 'e', 'r'],
        Target::Btn(Button::DPadUp) => seq!['d', 'p', 'u', 'p'],
        Target::Btn(Button::DPadDown) => seq!['d', 'p', 'd', 'o', 'w', 'n'],
        Target::Btn(Button::DPadLeft) => seq!['d', 'p', 'l', 'e', 'f', 't'],
        Target::Btn(Button::DPadRight) => seq!['d', 'p', 'r', 'i', 'g', 'h', 't'],
        Target::Ax(Axis::LeftStickX) => seq!['l', 'e', 'f', 't', 'x'],
        Target::Ax(Axis::LeftStickY) => seq!['l', 'e', 'f', 't', 'y'],
        Target::Ax(Axis::RightStickX) => seq!['r', 'i', 'g', 'h', 't', 'x'],
        Target::Ax(Axis::RightStickY) => seq!['r', 'i', 'g', 'h', 't', 'y'],
        Target::Ax(Axis::LeftZ) => seq!['l', 'e', 'f', 't', 't', 'r', 'i', 'g', 'g', 'e', 'r'],
        Target::Ax(Axis::RightZ) => seq!['r', 'i', 'g', 'h', 't', 't', 'r', 'i', 'g', 'g', 'e', 'r'],
    }
}

/// Every logical control, in a fixed order. Strict validation asks for an
/// entry for each of them.
pub open spec fn spec_all_targets() -> Seq<Target> {
    seq![
        Target::Btn(Button::South),
        Target::Btn(Button::East),
        Target::Btn(Button::West),
        Target::Btn(Button::North),
        Target::Btn(Button::Select),
        Target::Btn(Button::Mode),
        Target::Btn(Button::Start),
        Target::Btn(Button::LeftThumb),
        Target::Btn(Button::RightThumb),
        Target::Btn(Button::LeftTrigger),
        Target::Btn(Button::RightTrigger),
        Target::Btn(Button::DPadUp),
        Target::Btn(Button::DPadDown),
        Target::Btn(Button::DPadLeft),
        Target::Btn(Button::DPadRight),
        Target::Ax(Axis::LeftStickX),
        Target::Ax(Axis::LeftStickY),
        Target::Ax(Axis::RightStickX),
        Target::Ax(Axis::RightStickY),
        Target::Ax(Axis::LeftZ),
        Target::Ax(Axis::RightZ),
    ]
}

pub open spec fn lookup_target(ts: Seq<Target>, k: Seq<char>) -> Option<Target>
    decreases ts.len(),
{
    if ts.len() == 0 {
        None
    } else if key_of(ts[0]) == k {
        Some(ts[0])
    } else {
        lookup_target(ts.skip(1), k)
    }
}

/// The logical control a text key names, if any; unknown keys have none.
pub open spec fn spec_target_of_key(k: Seq<char>) -> Option<Target> {
    lookup_target(spec_all_targets(), k)
}

// ---------------------------------------------------------------------------
// Value grammar
// ---------------------------------------------------------------------------

/// Meaning of a value token: `bN`, `[+|-]aN[~]`, or `hN.M`.
pub open spec fn spec_parse_value(v: Seq<char>) -> Option<NativeInput> {
    if v.len() == 0 {
        None
    } else if v[0] == 'b' {
        if valid_dec(v.skip(1)) {
            Some(NativeInput::Button(dec_val(v.skip(1)) as u16))
        } else {
            None
        }
    } else if v[0] == 'h' {
        let rest = v.skip(1);
        let d = first_index_of(rest, '.');
        if d < rest.len() && valid_dec(rest.take(d)) && valid_dec(rest.skip(d + 1)) {
            Some(NativeInput::Hat(dec_val(rest.take(d)) as u16, dec_val(rest.skip(d + 1)) as u16))
        } else {
            None
        }
    } else {
        let half = if v[0] == '+' { AxisHalf::Positive }
            else if v[0] == '-' { AxisHalf::Negative }
            else { AxisHalf::Full };
        let r1 = if v[0] == '+' || v[0] == '-' { v.skip(1) } else { v };
        if r1.len() >= 1 && r1[0] == 'a' {
            let r2 = r1.skip(1);
            let inv = r2.len() > 0 && r2.last() == '~';
            let digits = if inv { r2.drop_last() } else { r2 };
            if valid_dec(digits) {
                Some(NativeInput::Axis(dec_val(digits) as u16, half, inv))
            } else {
                None
            }
        } else {
            None
        }
    }
}

// ---------------------------------------------------------------------------
// Token and line grammar
// ---------------------------------------------------------------------------

/// Outcome of reading one comma-separated token: ignored (empty token or
/// unknown key), one entry, or a malformed value.
#[derive(Clone, Copy, Debug, PartialEq, Eq, Structural)]
pub enum TokenParse {
    Skip,
    Entry(MapEntry),
    Bad,
}

pub open spec fn spec_parse_token(t: Seq<char>) -> TokenParse {
    if t.len() == 0 {
        TokenParse::Skip
    } else {
        let c = first_index_of(t, ':');
        if c == t.len() {
            TokenParse::Bad
        } else {
            match spec_target_of_key(t.take(c)) {
                Option::None => TokenParse::Skip,
                Option::Some(tg) => match spec_parse_value(t.skip(c + 1)) {
                    Option::Some(inp) => TokenParse::Entry(MapEntry { target: tg, input: inp }),
                    Option::None => TokenParse::Bad,
                },
            }
        }
    }
}

/// Read the entry tokens from index `i` on; the first malformed one fails the
/// whole parse with its token index.
pub open spec fn parse_entries(toks: Seq<Seq<char>>, i: nat) -> Result<Seq<MapEntry>, MappingError>
    decreases toks.len() - i,
{
    if i >= toks.len() {
        Ok(Seq::<MapEntry>::empty())
    } else {
        match spec_parse_token(toks[i as int]) {
            TokenParse::Skip => parse_entries(toks, i + 1),
            TokenParse::Bad => Err(MappingError::Parse(i as usize)),
            TokenParse::Entry(e) => match parse_entries(toks, i + 1) {
                Ok(rest) => Ok(seq![e] + rest),
                Err(er) => Err(er),
            },
        }
    }
}

/// A GUID field: nonempty hexadecimal text.
pub open spec fn valid_guid(g: Seq<char>) -> bool {
    g.len() > 0 && forall|i: int| 0 <= i < g.len() ==> is_hex_digit(#[trigger] g[i])
}

/// Meaning of a whole mapping line.
pub open spec fn spec_parse(s: Seq<char>) -> Result<MappingView, MappingError> {
    let toks = spec_split(s);
    if toks.len() < 2 || !valid_guid(toks[0]) {
        Err(MappingError::Parse(0))
    } else {
        match parse_entries(toks, 2) {
            Ok(es) => Ok(MappingView { guid: toks[0], name: toks[1], entries: es }),
            Err(e) => Err(e),
        }
    }
}

// ---------------------------------------------------------------------------
// Serialization
// ---------------------------------------------------------------------------

pub open spec fn ser_value(inp: NativeInput) -> Seq<char> {
    match inp {
        NativeInput::Button(n) => seq!['b'] + dec_of(n as nat),
        NativeInput::Axis(n, half, inv) => {
            let pre = match half {
                AxisHalf::Full => Seq::<char>::empty(),
                AxisHalf::Positive => seq!['+'],
                AxisHalf::Negative => seq!['-'],
            };
            let post = if inv { seq!['~'] } else { Seq::<char>::empty() };
            pre + seq!['a'] + dec_of(n as nat) + post
        },
        NativeInput::Hat(n, bit) => seq!['h'] + dec_of(n as nat) + seq!['.'] + dec_of(bit as nat),
    }
}

pub open spec fn ser_entry(e: MapEntry) -> Seq<char> {
    key_of(e.target) + seq![':'] + ser_value(e.input)
}

/// Entry tokens in order, each followed by a comma (so a serialized line ends
/// with a trailing comma, as the interchange format does).
pub open spec fn ser_entries(es: Seq<MapEntry>) -> Seq<char>
    decreases es.len(),
{
    if es.len() == 0 {
        Seq::<char>::empty()
    } else {
        ser_entry(es[0]) + seq![','] + ser_entries(es.skip(1))
    }
}

pub open spec fn spec_serialize(m: MappingView) -> Seq<char> {
    m.guid + seq![','] + m.name + seq![','] + ser_entries(m.entries)
}

/// A mapping value that serialization and re-parsing agree on: the GUID is
/// hexadecimal and the name holds no separator.
pub open spec fn wf_mapping(m: MappingView) -> bool {
    &&& valid_guid(m.guid)
    &&& forall|i: int| 0 <= i < m.name.len() ==> m.name[i] != ','
}

} // verus!

verus! {

// ---------------------------------------------------------------------------
// Executable helpers
// ---------------------------------------------------------------------------

/// The characters of a string, in order.
pub fn str_to_chars(s: &str) -> (r: Vec<char>)
    ensures
        r@ == s@,
{
    let n = s.unicode_len();
    let mut out: Vec<char> = Vec::new();
    let mut i: usize = 0;
    while i < n
        invariant
            i <= n,
            n == s@.len(),
            out@ == s@.take(i as int),
        decreases n - i,
    {
        out.push(s.get_char(i));
        assert(s@.take(i + 1) =~= s@.take(i as int).push(s@[i as int]));
        i = i + 1;
    }
    assert(s@.take(n as int) =~= s@);
    out
}

/// Relies on `String::from_iter` over `char`: the string collects exactly the
/// given characters, in order.
#[verifier::external_body]
fn string_from_chars(cs: &Vec<char>) -> (r: String)
    ensures
        r@ == cs@,
{
    cs.iter().collect()
}

fn chars_eq(a: &Vec<char>, b: &Vec<char>) -> (r: bool)
    ensures
        r == (a@ == b@),
{
    if a.len() != b.len() {
        return false;
    }
    let mut i: usize = 0;
    while i < a.len()
        invariant
            i <= a.len(),
            a@.len() == b@.len(),
            forall|j: int| 0 <= j < i ==> a@[j] == b@[j],
        decreases a.len() - i,
    {
        if a[i] != b[i] {
            return false;
        }
        i = i + 1;
    }
    proof {
        assert(a@ =~= b@);
    }
    true
}

fn subvec(v: &Vec<char>, from: usize, to: usize) -> (r: Vec<char>)
    requires
        from <= to <= v.len(),
    ensures
        r@ == v@.subrange(from as int, to as int),
{
    let mut out: Vec<char> = Vec::new();
    let mut i: usize = from;
    while i < to
        invariant
            from <= i <= to <= v@.len(),
            out@ == v@.subrange(from as int, i as int),
        decreases to - i,
    {
        out.push(v[i]);
        assert(v@.subrange(from as int, i + 1) =~= v@.subrange(from as int, i as int).push(
            v@[i as int],
        ));
        i = i + 1;
    }
    out
}

fn is_digit_exec(c: char) -> (r: bool)
    ensures
        r == is_digit(c),
{
    '0' <= c && c <= '9'
}

fn is_hex_digit_exec(c: char) -> (r: bool)
    ensures
        r == is_hex_digit(c),
{
    is_digit_exec(c) || ('a' <= c && c <= 'f') || ('A' <= c && c <= 'F')
}

/// Index of the first occurrence of `c` in `v`, or the length if none.
fn find_char(v: &Vec<char>, c: char) -> (r: usize)
    ensures
        r == first_index_of(v@, c),
        r <= v@.len(),
        r < v@.len() ==> v@[r as int] == c,
        forall|j: int| 0 <= j < r ==> v@[j] != c,
{
    proof {
        lemma_first_index_bounds(v@, c);
    }
    let mut i: usize = 0;
    while i < v.len()
        invariant
            i <= v@.len(),
            forall|j: int| 0 <= j < i ==> v@[j] != c,
            0 <= first_index_of(v@, c) <= v@.len(),
        decreases v.len() - i,
    {
        if v[i] == c {
            proof {
                lemma_first_index_unique(v@, c, i as int);
            }
            return i;
        }
        i = i + 1;
    }
    proof {
        lemma_first_index_none(v@, c);
    }
    v.len()
}

pub proof fn lemma_first_index_bounds(s: Seq<char>, c: char)
    ensures
        0 <= first_index_of(s, c) <= s.len(),
    decreases s.len(),
{
    if s.len() != 0 && s[0] != c {
        lemma_first_index_bounds(s.skip(1), c);
    }
}

/// `first_index_of` is the first position that holds `c`.
pub proof fn lemma_first_index_unique(s: Seq<char>, c: char, i: int)
    requires
        0 <= i < s.len(),
        s[i] == c,
        forall|j: int| 0 <= j < i ==> s[j] != c,
    ensures
        first_index_of(s, c) == i,
    decreases s.len(),
{
    if s[0] != c {
        assert(forall|j: int| 0 <= j < i - 1 ==> s.skip(1)[j] == s[j + 1]);
        lemma_first_index_unique(s.skip(1), c, i - 1);
    }
}

/// When `c` is absent, `first_index_of` is the length.
pub proof fn lemma_first_index_none(s: Seq<char>, c: char)
    requires
        forall|j: int| 0 <= j < s.len() ==> s[j] != c,
    ensures
        first_index_of(s, c) == s.len(),
    decreases s.len(),
{
    if s.len() != 0 {
        assert(forall|j: int| 0 <= j < s.skip(1).len() ==> s.skip(1)[j] == s[j + 1]);
        lemma_first_index_none(s.skip(1), c);
    }
}

// ---------------------------------------------------------------------------
// Executable decimal numbers
// ---------------------------------------------------------------------------

pub proof fn lemma_dec_val_nonneg(s: Seq<char>)
    requires
        all_digits(s),
    ensures
        dec_val(s) >= 0,
    decreases s.len(),
{
    if s.len() != 0 {
        assert(all_digits(s.drop_last()));
        lemma_dec_val_nonneg(s.drop_last());
    }
}

/// A digit prefix never exceeds the whole digit string in value.
pub proof fn lemma_dec_val_prefix(s: Seq<char>, i: int)
    requires
        all_digits(s),
        0 <= i <= s.len(),
    ensures
        dec_val(s.take(i)) <= dec_val(s),
    decreases s.len() - i,
{
    if i < s.len() {
        assert(s.take(i + 1).drop_last() =~= s.take(i));
        assert(all_digits(s.take(i + 1)));
        assert(all_digits(s.take(i)));
        lemma_dec_val_nonneg(s.take(i));
        assert(dec_val(s.take(i + 1)) == dec_val(s.take(i)) * 10 + (s[i] as int - '0' as int));
        lemma_dec_val_prefix(s, i + 1);
        assert(s.take(s.len() as int) =~= s);
    } else {
        assert(s.take(i) =~= s);
    }
}

/// Read a decimal digit string; `None` exactly when it is empty, holds a
/// non-digit, or overflows a native code.
fn parse_dec(v: &Vec<char>) -> (r: Option<u16>)
    ensures
        match r {
            Some(n) => valid_dec(v@) && n as int == dec_val(v@),
            None => !valid_dec(v@),
        },
{
    if v.len() == 0 {
        return None;
    }
    let mut acc: u32 = 0;
    let mut i: usize = 0;
    while i < v.len()
        invariant
            i <= v@.len(),
            v@.len() > 0,
            all_digits(v@.take(i as int)),
            acc as int == dec_val(v@.take(i as int)),
            acc <= 0xffff,
        decreases v.len() - i,
    {
        let c = v[i];
        if !is_digit_exec(c) {
            assert(!all_digits(v@));
            return None;
        }
        let d: u32 = (c as u32) - ('0' as u32);
        assert(d == c as int - '0' as int);
        let next: u32 = acc * 10 + d;
        proof {
            assert(v@.take(i + 1).drop_last() =~= v@.take(i as int));
            assert(all_digits(v@.take(i + 1)));
            assert(dec_val(v@.take(i + 1)) == acc as int * 10 + d);
        }
        if next > 0xffff {
            proof {
                if all_digits(v@) {
                    lemma_dec_val_prefix(v@, i + 1);
                }
            }
            return None;
        }
        acc = next;
        i = i + 1;
    }
    proof {
        assert(v@.take(v@.len() as int) =~= v@);
    }
    Some(acc as u16)
}

fn digit_char_exec(d: u16) -> (r: char)
    requires
        d < 10,
    ensures
        r == digit_char(d as int),
{
    match d {
        0 => '0',
        1 => '1',
        2 => '2',
        3 => '3',
        4 => '4',
        5 => '5',
        6 => '6',
        7 => '7',
        8 => '8',
        _ => '9',
    }
}

/// Append the canonical decimal rendering of `n`.
fn push_dec(n: u16, out: &mut Vec<char>)
    ensures
        final(out)@ == old(out)@ + dec_of(n as nat),
    decreases n,
{
    if n < 10 {
        out.push(digit_char_exec(n));
        assert(final(out)@ =~= old(out)@ + dec_of(n as nat));
    } else {
        push_dec(n / 10, out);
        out.push(digit_char_exec(n % 10));
        assert(final(out)@ =~= old(out)@ + dec_of(n as nat));
    }
}

} // verus!

verus! {

// ---------------------------------------------------------------------------
// Executable keys and targets
// ---------------------------------------------------------------------------

/// The text key of a logical control, as characters.
pub fn key_name(t: Target) -> (r: Vec<char>)
    ensures
        r@ == key_of(t),
{
    let r: Vec<char> = match t {
        Target::Btn(Button::South) => vec!['a'],
        Target::Btn(Button::East) => vec!['b'],
        Target::Btn(Button::West) => vec!['x'],
        Target::Btn(Button::North) => vec!['y'],
        Target::Btn(Button::Select) => vec!['b', 'a', 'c', 'k'],
        Target::Btn(Button::Mode) => vec!['g', 'u', 'i', 'd', 'e'],
        Target::Btn(Button::Start) => vec!['s', 't', 'a', 'r', 't'],
        Target::Btn(Button::LeftThumb) => vec!['l', 'e', 'f', 't', 's', 't', 'i', 'c', 'k'],
        Target::Btn(Button::RightThumb) => vec!['r', 'i', 'g', 'h', 't', 's', 't', 'i', 'c', 'k'],
        Target::Btn(Button::LeftTrigger) => vec!['l', 'e', 'f', 't', 's', 'h', 'o', 'u', 'l', 'd', 'e', 'r'],
        Target::Btn(Button::RightTrigger) => vec!['r', 'i', 'g', 'h', 't', 's', 'h', 'o', 'u', 'l', 'd', 'e', 'r'],
        Target::Btn(Button::DPadUp) => vec!['d', 'p', 'u', 'p'],
        Target::Btn(Button::DPadDown) => vec!['d', 'p', 'd', 'o', 'w', 'n'],
        Target::Btn(Button::DPadLeft) => vec!['d', 'p', 'l', 'e', 'f', 't'],
        Target::Btn(Button::DPadRight) => vec!['d', 'p', 'r', 'i', 'g', 'h', 't'],
        Target::Ax(Axis::LeftStickX) => vec!['l', 'e', 'f', 't', 'x'],
        Target::Ax(Axis::LeftStickY) => vec!['l', 'e', 'f', 't', 'y'],
        Target::Ax(Axis::RightStickX) => vec!['r', 'i', 'g', 'h', 't', 'x'],
        Target::Ax(Axis::RightStickY) => vec!['r', 'i', 'g', 'h', 't', 'y'],
        Target::Ax(Axis::LeftZ) => vec!['l', 'e', 'f', 't', 't', 'r', 'i', 'g', 'g', 'e', 'r'],
        Target::Ax(Axis::RightZ) => vec!['r', 'i', 'g', 'h', 't', 't', 'r', 'i', 'g', 'g', 'e', 'r'],
    };
    proof {
        assert(r@ =~= key_of(t));
    }
    r
}

/// Every logical control, in the fixed vocabulary order.
pub fn all_targets() -> (r: Vec<Target>)
    ensures
        r@ == spec_all_targets(),
{
    let r: Vec<Target> = vec![
        Target::Btn(Button::South),
        Target::Btn(Button::East),
        Target::Btn(Button::West),
        Target::Btn(Button::North),
        Target::Btn(Button::Select),
        Target::Btn(Button::Mode),
        Target::Btn(Button::Start),
        Target::Btn(Button::LeftThumb),
        Target::Btn(Button::RightThumb),
        Target::Btn(Button::LeftTrigger),
        Target::Btn(Button::RightTrigger),
        Target::Btn(Button::DPadUp),
        Target::Btn(Button::DPadDown),
        Target::Btn(Button::DPadLeft),
        Target::Btn(Button::DPadRight),
        Target::Ax(Axis::LeftStickX),
        Target::Ax(Axis::LeftStickY),
        Target::Ax(Axis::RightStickX),
        Target::Ax(Axis::RightStickY),
        Target::Ax(Axis::LeftZ),
        Target::Ax(Axis::RightZ),
    ];
    proof {
        assert(r@ =~= spec_all_targets());
    }
    r
}

/// The logical control a text key names, if any.
pub fn target_of_key(k: &Vec<char>) -> (r: Option<Target>)
    ensures
        r == spec_target_of_key(k@),
{
    let ts = all_targets();
    proof {
        assert(spec_all_targets().skip(0) =~~= spec_all_targets());
    }
    let mut i: usize = 0;
    while i < ts.len()
        invariant
            i <= ts@.len(),
            ts@ == spec_all_targets(),
            spec_target_of_key(k@) == lookup_target(spec_all_targets().skip(i as int), k@),
        decreases ts.len() - i,
    {
        let name = key_name(ts[i]);
        proof {
            assert(spec_all_targets().skip(i as int)[0] == ts@[i as int]);
        }
        if chars_eq(&name, k) {
            return Some(ts[i]);
        }
        proof {
            assert(spec_all_targets().skip(i as int).skip(1) =~~= spec_all_targets().skip(i + 1));
        }
        i = i + 1;
    }
    None
}

// ---------------------------------------------------------------------------
// Executable value and token parsing
// ---------------------------------------------------------------------------

/// Read one value token.
pub fn parse_value(v: &Vec<char>) -> (r: Option<NativeInput>)
    ensures
        r == spec_parse_value(v@),
{
    if v.len() == 0 {
        return None;
    }
    let c0 = v[0];
    if c0 == 'b' {
        let digits = subvec(v, 1, v.len());
        proof {
            assert(digits@ =~= v@.skip(1));
        }
        match parse_dec(&digits) {
            Some(n) => Some(NativeInput::Button(n)),
            None => None,
        }
    } else if c0 == 'h' {
        let rest = subvec(v, 1, v.len());
        proof {
            assert(rest@ =~= v@.skip(1));
        }
        let d = find_char(&rest, '.');
        if d == rest.len() {
            return None;
        }
        let first = subvec(&rest, 0, d);
        let second = subvec(&rest, d + 1, rest.len());
        proof {
            assert(first@ =~= rest@.take(d as int));
            assert(second@ =~= rest@.skip(d + 1));
        }
        match (parse_dec(&first), parse_dec(&second)) {
            (Some(a), Some(b)) => Some(NativeInput::Hat(a, b)),
            _ => None,
        }
    } else {
        let half = if c0 == '+' {
            AxisHalf::Positive
        } else if c0 == '-' {
            AxisHalf::Negative
        } else {
            AxisHalf::Full
        };
        let start: usize = if c0 == '+' || c0 == '-' { 1 } else { 0 };
        let ghost r1 = if c0 == '+' || c0 == '-' { v@.skip(1) } else { v@ };
        if v.len() <= start || v[start] != 'a' {
            proof {
                if start < v@.len() {
                    assert(r1[0] == v@[start as int]);
                }
            }
            return None;
        }
        let ghost r2 = r1.skip(1);
        proof {
            assert(r2 =~= v@.subrange(start + 1, v@.len() as int));
        }
        let inv = v.len() > start + 1 && v[v.len() - 1] == '~';
        proof {
            if r2.len() > 0 {
                assert(r2.last() == v@.last());
            }
            assert(inv == (r2.len() > 0 && r2.last() == '~'));
        }
        let end: usize = if inv { v.len() - 1 } else { v.len() };
        let digits = subvec(v, start + 1, end);
        proof {
            if inv {
                assert(digits@ =~= r2.drop_last());
            } else {
                assert(digits@ =~= r2);
            }
        }
        match parse_dec(&digits) {
            Some(n) => Some(NativeInput::Axis(n, half, inv)),
            None => None,
        }
    }
}

/// Read one comma-separated token.
pub fn parse_token(t: &Vec<char>) -> (r: TokenParse)
    ensures
        r == spec_parse_token(t@),
{
    if t.len() == 0 {
        return TokenParse::Skip;
    }
    let c = find_char(t, ':');
    if c == t.len() {
        return TokenParse::Bad;
    }
    let key = subvec(t, 0, c);
    let val = subvec(t, c + 1, t.len());
    proof {
        assert(key@ =~= t@.take(c as int));
        assert(val@ =~= t@.skip(c + 1));
    }
    match target_of_key(&key) {
        Option::None => TokenParse::Skip,
        Option::Some(tg) => match parse_value(&val) {
            Option::Some(inp) => TokenParse::Entry(MapEntry { target: tg, input: inp }),
            Option::None => TokenParse::Bad,
        },
    }
}

// ---------------------------------------------------------------------------
// Executable splitting
// ---------------------------------------------------------------------------

/// The first token of `ts` with `c` prepended, then the rest of `ts`.
pub open spec fn prepend_first(c: Seq<char>, ts: Seq<Seq<char>>) -> Seq<Seq<char>> {
    seq![c + ts[0]] + ts.skip(1)
}

/// Split on commas.
pub fn split_chars(s: &Vec<char>) -> (r: Vec<Vec<char>>)
    ensures
        r@.map_values(|t: Vec<char>| t@) == spec_split(s@),
{
    let mut tokens: Vec<Vec<char>> = Vec::new();
    let mut cur: Vec<char> = Vec::new();
    let mut i: usize = 0;
    proof {
        lemma_split_len(s@);
        assert(s@.skip(0) =~= s@);
        assert(prepend_first(cur@, spec_split(s@)) =~~= spec_split(s@));
        assert(tokens@.map_values(|t: Vec<char>| t@) + prepend_first(cur@, spec_split(s@))
            =~~= spec_split(s@));
    }
    while i < s.len()
        invariant
            i <= s@.len(),
            spec_split(s@) == tokens@.map_values(|t: Vec<char>| t@) + prepend_first(
                cur@,
                spec_split(s@.skip(i as int)),
            ),
        decreases s.len() - i,
    {
        let ghost pre_tokens = tokens@;
        let ghost pre_cur = cur@;
        proof {
            lemma_split_len(s@.skip(i + 1));
            assert(s@.skip(i as int)[0] == s@[i as int]);
            assert(s@.skip(i as int).skip(1) =~= s@.skip(i + 1));
        }
        if s[i] == ',' {
            tokens.push(cur);
            cur = Vec::new();
            proof {
                assert(spec_split(s@.skip(i as int)) =~~= seq![Seq::<char>::empty()] + spec_split(
                    s@.skip(i + 1),
                ));
                assert(prepend_first(pre_cur, spec_split(s@.skip(i as int))) =~~= seq![pre_cur]
                    + spec_split(s@.skip(i + 1)));
                assert(tokens@.map_values(|t: Vec<char>| t@) =~~= pre_tokens.map_values(
                    |t: Vec<char>| t@,
                ).push(pre_cur));
                assert(prepend_first(cur@, spec_split(s@.skip(i + 1))) =~~= spec_split(
                    s@.skip(i + 1),
                ));
                assert(spec_split(s@) =~~= tokens@.map_values(|t: Vec<char>| t@) + prepend_first(
                    cur@,
                    spec_split(s@.skip(i + 1)),
                ));
            }
        } else {
            let c = s[i];
            cur.push(c);
            proof {
                let rest = spec_split(s@.skip(i + 1));
                assert(spec_split(s@.skip(i as int)) =~~= seq![seq![c] + rest[0]] + rest.skip(1));
                assert(pre_cur + (seq![c] + rest[0]) =~= cur@ + rest[0]);
                assert(prepend_first(pre_cur, spec_split(s@.skip(i as int))) =~~= prepend_first(
                    cur@,
                    rest,
                ));
                assert(spec_split(s@) =~~= tokens@.map_values(|t: Vec<char>| t@) + prepend_first(
                    cur@,
                    spec_split(s@.skip(i + 1)),
                ));
            }
        }
        i = i + 1;
    }
    proof {
        assert(s@.skip(s@.len() as int) =~= Seq::<char>::empty());
        assert(prepend_first(cur@, spec_split(s@.skip(s@.len() as int))) =~~= seq![cur@]);
    }
    let ghost pre_tokens = tokens@;
    let ghost last = cur@;
    tokens.push(cur);
    proof {
        assert(tokens@.map_values(|t: Vec<char>| t@) =~~= pre_tokens.map_values(|t: Vec<char>| t@)
            .push(last));
        assert(tokens@.map_values(|t: Vec<char>| t@) =~~= spec_split(s@));
    }
    tokens
}

} // verus!

verus! {

// ---------------------------------------------------------------------------
// Applying a table to a native report
// ---------------------------------------------------------------------------

/// Normalize a native axis sample through an entry's half and inversion
/// marks. The half is applied first, then the inversion; the lowest native
/// value inverts to the highest so the result stays in range.
pub open spec fn spec_axis_transform(v: i16, half: AxisHalf, inv: bool) -> i16 {
    let h = match half {
        AxisHalf::Full => v,
        AxisHalf::Positive => if v < 0 { 0i16 } else { v },
        AxisHalf::Negative => if v > 0 { 0i16 } else { v },
    };
    if inv {
        if h == i16::MIN { i16::MAX } else { (0 - h) as i16 }
    } else {
        h
    }
}

pub fn axis_transform(v: i16, half: AxisHalf, inv: bool) -> (r: i16)
    ensures
        r == spec_axis_transform(v, half, inv),
{
    let h = match half {
        AxisHalf::Full => v,
        AxisHalf::Positive => if v < 0 { 0i16 } else { v },
        AxisHalf::Negative => if v > 0 { 0i16 } else { v },
    };
    if inv {
        if h == i16::MIN { i16::MAX } else { -h }
    } else {
        h
    }
}

/// What one entry makes of a native sample, if the codes agree.
pub open spec fn translate_one(e: MapEntry, code: RawCode) -> Option<EventKind> {
    match (code, e.input, e.target) {
        (RawCode::ButtonPress(n), NativeInput::Button(m), Target::Btn(b)) =>
            if n == m { Some(EventKind::ButtonPressed(b)) } else { None },
        (RawCode::ButtonRelease(n), NativeInput::Button(m), Target::Btn(b)) =>
            if n == m { Some(EventKind::ButtonReleased(b)) } else { None },
        (RawCode::AxisValue(n, v), NativeInput::Axis(m, half, inv), Target::Ax(a)) =>
            if n == m { Some(EventKind::AxisChanged(a, spec_axis_transform(v, half, inv))) } else { None },
        (RawCode::HatMoved(n, bits), NativeInput::Hat(m, bit), Target::Btn(b)) =>
            if n == m {
                Some(if bits & bit != 0 { EventKind::ButtonPressed(b) } else { EventKind::ButtonReleased(b) })
            } else { None },
        _ => None,
    }
}

/// What the table makes of a native sample: the first entry whose native code
/// matches decides; a sample no entry matches is dropped.
pub open spec fn spec_translate(es: Seq<MapEntry>, code: RawCode) -> Option<EventKind>
    decreases es.len(),
{
    if es.len() == 0 {
        None
    } else {
        match translate_one(es[0], code) {
            Some(k) => Some(k),
            None => spec_translate(es.skip(1), code),
        }
    }
}

fn translate_one_exec(e: MapEntry, code: RawCode) -> (r: Option<EventKind>)
    ensures
        r == translate_one(e, code),
{
    match (code, e.input, e.target) {
        (RawCode::ButtonPress(n), NativeInput::Button(m), Target::Btn(b)) =>
            if n == m { Some(EventKind::ButtonPressed(b)) } else { None },
        (RawCode::ButtonRelease(n), NativeInput::Button(m), Target::Btn(b)) =>
            if n == m { Some(EventKind::ButtonReleased(b)) } else { None },
        (RawCode::AxisValue(n, v), NativeInput::Axis(m, half, inv), Target::Ax(a)) =>
            if n == m { Some(EventKind::AxisChanged(a, axis_transform(v, half, inv))) } else { None },
        (RawCode::HatMoved(n, bits), NativeInput::Hat(m, bit), Target::Btn(b)) =>
            if n == m {
                Some(if bits & bit != 0 { EventKind::ButtonPressed(b) } else { EventKind::ButtonReleased(b) })
            } else { None },
        _ => None,
    }
}

// ---------------------------------------------------------------------------
// Completeness
// ---------------------------------------------------------------------------

pub open spec fn spec_has_target(es: Seq<MapEntry>, t: Target) -> bool {
    exists|i: int| 0 <= i < es.len() && (#[trigger] es[i]).target == t
}

/// A complete table assigns every logical control.
pub open spec fn spec_complete(es: Seq<MapEntry>) -> bool {
    forall|t: Target| #[trigger] spec_has_target(es, t)
}

/// The fixed vocabulary list holds every logical control.
pub proof fn lemma_targets_cover(t: Target)
    ensures
        spec_all_targets().contains(t),
{
    match t {
        Target::Btn(Button::South) => assert(spec_all_targets()[0] == t),
        Target::Btn(Button::East) => assert(spec_all_targets()[1] == t),
        Target::Btn(Button::West) => assert(spec_all_targets()[2] == t),
        Target::Btn(Button::North) => assert(spec_all_targets()[3] == t),
        Target::Btn(Button::Select) => assert(spec_all_targets()[4] == t),
        Target::Btn(Button::Mode) => assert(spec_all_targets()[5] == t),
        Target::Btn(Button::Start) => assert(spec_all_targets()[6] == t),
        Target::Btn(Button::LeftThumb) => assert(spec_all_targets()[7] == t),
        Target::Btn(Button::RightThumb) => assert(spec_all_targets()[8] == t),
        Target::Btn(Button::LeftTrigger) => assert(spec_all_targets()[9] == t),
        Target::Btn(Button::RightTrigger) => assert(spec_all_targets()[10] == t),
        Target::Btn(Button::DPadUp) => assert(spec_all_targets()[11] == t),
        Target::Btn(Button::DPadDown) => assert(spec_all_targets()[12] == t),
        Target::Btn(Button::DPadLeft) => assert(spec_all_targets()[13] == t),
        Target::Btn(Button::DPadRight) => assert(spec_all_targets()[14] == t),
        Target::Ax(Axis::LeftStickX) => assert(spec_all_targets()[15] == t),
        Target::Ax(Axis::LeftStickY) => assert(spec_all_targets()[16] == t),
        Target::Ax(Axis::RightStickX) => assert(spec_all_targets()[17] == t),
        Target::Ax(Axis::RightStickY) => assert(spec_all_targets()[18] == t),
        Target::Ax(Axis::LeftZ) => assert(spec_all_targets()[19] == t),
        Target::Ax(Axis::RightZ) => assert(spec_all_targets()[20] == t),
    }
}

fn has_target(es: &Vec<MapEntry>, t: Target) -> (r: bool)
    ensures
        r == spec_has_target(es@, t),
{
    let mut i: usize = 0;
    while i < es.len()
        invariant
            i <= es@.len(),
            forall|j: int| 0 <= j < i ==> (#[trigger] es@[j]).target != t,
        decreases es.len() - i,
    {
        if crate::types::target_eq(es[i].target, t) {
            return true;
        }
        i = i + 1;
    }
    false
}

// ---------------------------------------------------------------------------
// Every token a split yields is free of separators
// ---------------------------------------------------------------------------

pub proof fn lemma_split_no_comma(s: Seq<char>, k: int, j: int)
    requires
        0 <= k < spec_split(s).len(),
        0 <= j < spec_split(s)[k].len(),
    ensures
        spec_split(s)[k][j] != ',',
    decreases s.len(),
{
    if s.len() == 0 {
    } else if s[0] == ',' {
        if k > 0 {
            lemma_split_no_comma(s.skip(1), k - 1, j);
        }
    } else {
        let rest = spec_split(s.skip(1));
        lemma_split_len(s.skip(1));
        if k == 0 {
            if j > 0 {
                lemma_split_no_comma(s.skip(1), 0, j - 1);
            }
        } else {
            lemma_split_no_comma(s.skip(1), k, j);
        }
    }
}

} // verus!

verus! {

// ---------------------------------------------------------------------------
// Executable serialization
// ---------------------------------------------------------------------------

fn push_all(out: &mut Vec<char>, src: &Vec<char>)
    ensures
        final(out)@ == old(out)@ + src@,
{
    let mut i: usize = 0;
    while i < src.len()
        invariant
            i <= src@.len(),
            out@ == old(out)@ + src@.take(i as int),
        decreases src.len() - i,
    {
        out.push(src[i]);
        assert(old(out)@ + src@.take(i + 1) =~= (old(out)@ + src@.take(i as int)).push(
            src@[i as int],
        ));
        i = i + 1;
    }
    assert(old(out)@ + src@.take(src@.len() as int) =~= old(out)@ + src@);
}

fn push_value(inp: NativeInput, out: &mut Vec<char>)
    ensures
        final(out)@ == old(out)@ + ser_value(inp),
{
    match inp {
        NativeInput::Button(n) => {
            out.push('b');
            push_dec(n, out);
            assert(out@ =~= old(out)@ + ser_value(inp));
        },
        NativeInput::Axis(n, half, inv) => {
            match half {
                AxisHalf::Full => {},
                AxisHalf::Positive => out.push('+'),
                AxisHalf::Negative => out.push('-'),
            }
            out.push('a');
            push_dec(n, out);
            if inv {
                out.push('~');
            }
            assert(out@ =~= old(out)@ + ser_value(inp));
        },
        NativeInput::Hat(n, bit) => {
            out.push('h');
            push_dec(n, out);
            out.push('.');
            push_dec(bit, out);
            assert(out@ =~= old(out)@ + ser_value(inp));
        },
    }
}

fn push_entries(es: &Vec<MapEntry>, i: usize, out: &mut Vec<char>)
    requires
        i <= es@.len(),
    ensures
        final(out)@ == old(out)@ + ser_entries(es@.skip(i as int)),
    decreases es@.len() - i,
{
    if i == es.len() {
        assert(es@.skip(i as int) =~= Seq::<MapEntry>::empty());
        assert(old(out)@ + ser_entries(es@.skip(i as int)) =~= old(out)@);
    } else {
        let key = key_name(es[i].target);
        push_all(out, &key);
        out.push(':');
        push_value(es[i].input, out);
        out.push(',');
        push_entries(es, i + 1, out);
        proof {
            assert(es@.skip(i as int)[0] == es@[i as int]);
            assert(es@.skip(i as int).skip(1) =~= es@.skip(i + 1));
            assert(out@ =~= old(out)@ + ser_entries(es@.skip(i as int)));
        }
    }
}

// ---------------------------------------------------------------------------
// The mapping table API
// ---------------------------------------------------------------------------

impl MappingData {
    /// A table with no entries, authored for no particular device.
    pub fn empty() -> (r: MappingData)
        ensures
            r@.guid == seq!['0'],
            r@.name == Seq::<char>::empty(),
            r@.entries == Seq::<MapEntry>::empty(),
            wf_mapping(r@),
    {
        let r = MappingData { guid: vec!['0'], name: Vec::new(), entries: Vec::new() };
        proof {
            assert(r@.guid =~= seq!['0']);
        }
        r
    }

    /// Read a mapping line. The result is exactly what the line grammar
    /// gives: `Parse(i)` names the first offending comma-separated token.
    pub fn parse(s: &str) -> (r: Result<MappingData, MappingError>)
        ensures
            match r {
                Ok(m) => spec_parse(s@) == Ok::<MappingView, MappingError>(m@) && wf_mapping(m@),
                Err(e) => spec_parse(s@) == Err::<MappingView, MappingError>(e),
            },
    {
        let chars = str_to_chars(s);
        let tokens = split_chars(&chars);
        let ghost toks = spec_split(s@);
        proof {
            lemma_split_len(s@);
            assert(tokens@.map_values(|t: Vec<char>| t@).len() == tokens@.len());
        }
        if tokens.len() < 2 {
            return Err(MappingError::Parse(0));
        }
        // The GUID field must be nonempty hexadecimal text.
        let guid_tok = &tokens[0];
        proof {
            assert(toks[0] == tokens@.map_values(|t: Vec<char>| t@)[0]);
        }
        let mut gi: usize = 0;
        let mut guid_ok: bool = guid_tok.len() > 0;
        while gi < guid_tok.len()
            invariant
                gi <= guid_tok@.len(),
                toks.len() >= 2,
                guid_tok@ == toks[0],
                guid_ok == (guid_tok@.len() > 0 && forall|j: int|
                    0 <= j < gi ==> is_hex_digit(#[trigger] guid_tok@[j])),
            decreases guid_tok.len() - gi,
        {
            if !is_hex_digit_exec(guid_tok[gi]) {
                guid_ok = false;
            }
            gi = gi + 1;
        }
        if !guid_ok {
            assert(!valid_guid(toks[0]));
            return Err(MappingError::Parse(0));
        }
        assert(valid_guid(toks[0]));
        let mut entries: Vec<MapEntry> = Vec::new();
        let mut i: usize = 2;
        while i < tokens.len()
            invariant
                2 <= i <= tokens@.len(),
                toks == tokens@.map_values(|t: Vec<char>| t@),
                toks.len() == tokens@.len(),
                toks.len() >= 2,
                toks == spec_split(s@),
                valid_guid(toks[0]),
                parse_entries(toks, 2) == (match parse_entries(toks, i as nat) {
                    Ok(rest) => Ok::<Seq<MapEntry>, MappingError>(entries@ + rest),
                    Err(e) => Err::<Seq<MapEntry>, MappingError>(e),
                }),
            decreases tokens.len() - i,
        {
            proof {
                assert(toks[i as int] == tokens@[i as int]@);
            }
            let ghost pre = entries@;
            match parse_token(&tokens[i]) {
                TokenParse::Skip => {},
                TokenParse::Bad => {
                    proof {
                        assert(parse_entries(toks, i as nat) == Err::<Seq<MapEntry>, MappingError>(
                            MappingError::Parse(i),
                        ));
                    }
                    return Err(MappingError::Parse(i));
                },
                TokenParse::Entry(e) => {
                    entries.push(e);
                    proof {
                        if let Ok(rest) = parse_entries(toks, (i + 1) as nat) {
                            assert(pre + (seq![e] + rest) =~= entries@ + rest);
                        }
                    }
                },
            }
            i = i + 1;
        }
        assert(parse_entries(toks, tokens@.len() as nat) == Ok::<Seq<MapEntry>, MappingError>(
            Seq::<MapEntry>::empty(),
        ));
        assert(entries@ + Seq::<MapEntry>::empty() =~= entries@);
        let guid = subvec(&tokens[0], 0, tokens[0].len());
        let name = subvec(&tokens[1], 0, tokens[1].len());
        proof {
            assert(guid@ =~= toks[0]);
            assert(toks[1] == tokens@[1]@);
            assert(name@ =~= toks[1]);
            assert forall|j: int| 0 <= j < name@.len() implies name@[j] != ',' by {
                lemma_split_no_comma(s@, 1, j);
            }
        }
        Ok(MappingData { guid, name, entries })
    }

    /// Write the table back as a mapping line, in the canonical form: GUID,
    /// name, then one `key:value,` token per entry, in entry order.
    pub fn serialize(&self) -> (r: String)
        ensures
            r@ == spec_serialize(self@),
    {
        let mut out: Vec<char> = Vec::new();
        push_all(&mut out, &self.guid);
        out.push(',');
        push_all(&mut out, &self.name);
        out.push(',');
        push_entries(&self.entries, 0, &mut out);
        proof {
            assert(self.entries@.skip(0) =~= self.entries@);
            assert(out@ =~= spec_serialize(self@));
        }
        string_from_chars(&out)
    }

    /// Translate one native sample through the table; the first entry whose
    /// native code matches decides, and an unmatched sample is dropped.
    pub fn apply(&self, code: RawCode) -> (r: Option<EventKind>)
        ensures
            r == spec_translate(self@.entries, code),
    {
        proof {
            assert(self.entries@.skip(0) =~= self.entries@);
        }
        let mut i: usize = 0;
        while i < self.entries.len()
            invariant
                i <= self.entries@.len(),
                spec_translate(self.entries@, code) == spec_translate(
                    self.entries@.skip(i as int),
                    code,
                ),
            decreases self.entries.len() - i,
        {
            proof {
                assert(self.entries@.skip(i as int)[0] == self.entries@[i as int]);
                assert(self.entries@.skip(i as int).skip(1) =~= self.entries@.skip(i + 1));
            }
            match translate_one_exec(self.entries[i], code) {
                Some(k) => {
                    return Some(k);
                },
                None => {},
            }
            i = i + 1;
        }
        None
    }

    /// Whether every logical control has an assignment, as strict validation
    /// asks.
    pub fn is_complete(&self) -> (r: bool)
        ensures
            r == spec_complete(self@.entries),
    {
        let ts = all_targets();
        let mut i: usize = 0;
        while i < ts.len()
            invariant
                i <= ts@.len(),
                ts@ == spec_all_targets(),
                forall|j: int| 0 <= j < i ==> spec_has_target(self.entries@, #[trigger] ts@[j]),
            decreases ts.len() - i,
        {
            if !has_target(&self.entries, ts[i]) {
                assert(!spec_has_target(self@.entries, ts@[i as int]));
                return false;
            }
            i = i + 1;
        }
        proof {
            assert forall|t: Target| #[trigger] spec_has_target(self@.entries, t) by {
                lemma_targets_cover(t);
                let j = choose|j: int|
                    0 <= j < spec_all_targets().len() && spec_all_targets()[j] == t;
                assert(spec_has_target(self.entries@, ts@[j]));
            }
        }
        true
    }

    /// The GUID field the table was authored with.
    pub fn guid(&self) -> (r: String)
        ensures
            r@ == self@.guid,
    {
        string_from_chars(&self.guid)
    }

    /// The display name the table was authored with.
    pub fn name(&self) -> (r: String)
        ensures
            r@ == self@.name,
    {
        string_from_chars(&self.name)
    }

    /// An owned copy of the table.
    pub fn copy_of(&self) -> (r: MappingData)
        ensures
            r@ == self@,
    {
        let guid = subvec(&self.guid, 0, self.guid.len());
        let name = subvec(&self.name, 0, self.name.len());
        let mut entries: Vec<MapEntry> = Vec::new();
        let mut i: usize = 0;
        while i < self.entries.len()
            invariant
                i <= self.entries@.len(),
                entries@ == self.entries@.take(i as int),
            decreases self.entries.len() - i,
        {
            entries.push(self.entries[i]);
            assert(entries@ =~= self.entries@.take(i + 1));
            i = i + 1;
        }
        let r = MappingData { guid, name, entries };
        proof {
            assert(r@.guid =~= self@.guid);
            assert(r@.name =~= self@.name);
            assert(r@.entries =~= self@.entries);
        }
        r
    }
}

} // verus!

verus! {

// ---------------------------------------------------------------------------
// The round-trip law: serialization re-parses to the same mapping
// ---------------------------------------------------------------------------

pub proof fn lemma_dec_of_digits(n: nat)
    ensures
        dec_of(n).len() >= 1,
        all_digits(dec_of(n)),
    decreases n,
{
    if n >= 10 {
        lemma_dec_of_digits(n / 10);
        assert(all_digits(dec_of(n))) by {
            assert(dec_of(n) == dec_of(n / 10).push(digit_char((n % 10) as int)));
            assert(is_digit(digit_char((n % 10) as int)));
            assert(forall|i: int| 0 <= i < dec_of(n / 10).len() ==> dec_of(n)[i] == dec_of(
                n / 10,
            )[i]);
        }
    }
}

/// Reading back a canonical decimal rendering gives the number.
pub proof fn lemma_dec_round_trip(n: nat)
    ensures
        dec_val(dec_of(n)) == n,
        n <= u16::MAX ==> valid_dec(dec_of(n)),
    decreases n,
{
    lemma_dec_of_digits(n);
    if n < 10 {
        assert(dec_of(n) == seq![digit_char(n as int)]);
        assert(dec_of(n).drop_last() =~= Seq::<char>::empty());
        assert(dec_val(Seq::<char>::empty()) == 0);
        assert(dec_of(n).last() == digit_char(n as int));
        assert(dec_val(dec_of(n)) == digit_char(n as int) as int - '0' as int);
    } else {
        lemma_dec_round_trip(n / 10);
        let s = dec_of(n);
        assert(s == dec_of(n / 10).push(digit_char((n % 10) as int)));
        assert(s.drop_last() =~= dec_of(n / 10));
        assert(s.last() == digit_char((n % 10) as int));
        assert(dec_val(s) == dec_val(dec_of(n / 10)) * 10 + (digit_char((n % 10) as int) as int
            - '0' as int));
    }
}

/// The first separator of `a + [c] + rest` stands right after `a` when `a` is
/// free of it.
pub proof fn lemma_first_index_append(a: Seq<char>, c: char, rest: Seq<char>)
    requires
        forall|j: int| 0 <= j < a.len() ==> a[j] != c,
    ensures
        first_index_of(a + seq![c] + rest, c) == a.len(),
{
    let s = a + seq![c] + rest;
    assert(s[a.len() as int] == c);
    assert(forall|j: int| 0 <= j < a.len() ==> s[j] == a[j]);
    lemma_first_index_unique(s, c, a.len() as int);
}

/// Splitting a comma-free token off the front.
pub proof fn lemma_split_prefix(a: Seq<char>, rest: Seq<char>)
    requires
        forall|j: int| 0 <= j < a.len() ==> a[j] != ',',
    ensures
        spec_split(a + seq![','] + rest) == seq![a] + spec_split(rest),
    decreases a.len(),
{
    let s = a + seq![','] + rest;
    lemma_split_len(rest);
    if a.len() == 0 {
        assert(s[0] == ',');
        assert(s.skip(1) =~= rest);
        assert(spec_split(s) == seq![Seq::<char>::empty()] + spec_split(rest));
        assert(a =~= Seq::<char>::empty());
    } else {
        assert(s[0] == a[0]);
        assert(s[0] != ',');
        assert(s.skip(1) =~= a.skip(1) + seq![','] + rest);
        assert(forall|j: int| 0 <= j < a.skip(1).len() ==> a.skip(1)[j] == a[j + 1]);
        lemma_split_prefix(a.skip(1), rest);
        let r = spec_split(s.skip(1));
        assert(r == seq![a.skip(1)] + spec_split(rest));
        assert(r[0] == a.skip(1));
        assert(seq![s[0]] + r[0] =~= a);
        assert(r.skip(1) =~= spec_split(rest));
        assert(spec_split(s) == seq![seq![s[0]] + r[0]] + r.skip(1));
        assert(spec_split(s) =~= seq![a] + spec_split(rest));
    }
}

} // verus!

verus! {

/// A key holds neither separator nor assignment mark.
pub proof fn lemma_key_chars(t: Target)
    ensures
        key_of(t).len() >= 1,
        forall|j: int| 0 <= j < key_of(t).len() ==> key_of(t)[j] != ',' && key_of(t)[j] != ':',
{
    match t {
        Target::Btn(Button::South) => assert(forall|j: int|
            0 <= j < key_of(t).len() ==> key_of(t)[j] != ',' && key_of(t)[j] != ':'),
        Target::Btn(Button::East) => assert(forall|j: int|
            0 <= j < key_of(t).len() ==> key_of(t)[j] != ',' && key_of(t)[j] != ':'),
        Target::Btn(Button::West) => assert(forall|j: int|
            0 <= j < key_of(t).len() ==> key_of(t)[j] != ',' && key_of(t)[j] != ':'),
        Target::Btn(Button::North) => assert(forall|j: int|
            0 <= j < key_of(t).len() ==> key_of(t)[j] != ',' && key_of(t)[j] != ':'),
        Target::Btn(Button::Select) => assert(forall|j: int|
            0 <= j < key_of(t).len() ==> key_of(t)[j] != ',' && key_of(t)[j] != ':'),
        Target::Btn(Button::Mode) => assert(forall|j: int|
            0 <= j < key_of(t).len() ==> key_of(t)[j] != ',' && key_of(t)[j] != ':'),
        Target::Btn(Button::Start) => assert(forall|j: int|
            0 <= j < key_of(t).len() ==> key_of(t)[j] != ',' && key_of(t)[j] != ':'),
        Target::Btn(Button::LeftThumb) => assert(forall|j: int|
            0 <= j < key_of(t).len() ==> key_of(t)[j] != ',' && key_of(t)[j] != ':'),
        Target::Btn(Button::RightThumb) => assert(forall|j: int|
            0 <= j < key_of(t).len() ==> key_of(t)[j] != ',' && key_of(t)[j] != ':'),
        Target::Btn(Button::LeftTrigger) => assert(forall|j: int|
            0 <= j < key_of(t).len() ==> key_of(t)[j] != ',' && key_of(t)[j] != ':'),
        Target::Btn(Button::RightTrigger) => assert(forall|j: int|
            0 <= j < key_of(t).len() ==> key_of(t)[j] != ',' && key_of(t)[j] != ':'),
        Target::Btn(Button::DPadUp) => assert(forall|j: int|
            0 <= j < key_of(t).len() ==> key_of(t)[j] != ',' && key_of(t)[j] != ':'),
        Target::Btn(Button::DPadDown) => assert(forall|j: int|
            0 <= j < key_of(t).len() ==> key_of(t)[j] != ',' && key_of(t)[j] != ':'),
        Target::Btn(Button::DPadLeft) => assert(forall|j: int|
            0 <= j < key_of(t).len() ==> key_of(t)[j] != ',' && key_of(t)[j] != ':'),
        Target::Btn(Button::DPadRight) => assert(forall|j: int|
            0 <= j < key_of(t).len() ==> key_of(t)[j] != ',' && key_of(t)[j] != ':'),
        Target::Ax(Axis::LeftStickX) => assert(forall|j: int|
            0 <= j < key_of(t).len() ==> key_of(t)[j] != ',' && key_of(t)[j] != ':'),
        Target::Ax(Axis::LeftStickY) => assert(forall|j: int|
            0 <= j < key_of(t).len() ==> key_of(t)[j] != ',' && key_of(t)[j] != ':'),
        Target::Ax(Axis::RightStickX) => assert(forall|j: int|
            0 <= j < key_of(t).len() ==> key_of(t)[j] != ',' && key_of(t)[j] != ':'),
        Target::Ax(Axis::RightStickY) => assert(forall|j: int|
            0 <= j < key_of(t).len() ==> key_of(t)[j] != ',' && key_of(t)[j] != ':'),
        Target::Ax(Axis::LeftZ) => assert(forall|j: int|
            0 <= j < key_of(t).len() ==> key_of(t)[j] != ',' && key_of(t)[j] != ':'),
        Target::Ax(Axis::RightZ) => assert(forall|j: int|
            0 <= j < key_of(t).len() ==> key_of(t)[j] != ',' && key_of(t)[j] != ':'),
    }
}

/// Different controls never share a key: length, the first character, and —
/// for the stick axes — the fifth or sixth character tell every pair apart.
#[verifier::rlimit(100)]
pub proof fn lemma_keys_injective(t1: Target, t2: Target)
    requires
        t1 != t2,
    ensures
        key_of(t1) != key_of(t2),
{
    if key_of(t1) == key_of(t2) {
        let k1 = key_of(t1);
        let k2 = key_of(t2);
        assert(k1.len() == k2.len());
        assert(k1[0] == k2[0]);
        if k1.len() > 4 {
            assert(k1[4] == k2[4]);
        }
        if k1.len() > 5 {
            assert(k1[5] == k2[5]);
        }
        assert(false);
    }
}

/// The lookup yields the element at the first index whose key matches.
proof fn lemma_lookup_finds(ts: Seq<Target>, k: Seq<char>, i: int)
    requires
        0 <= i < ts.len(),
        key_of(ts[i]) == k,
        forall|j: int| 0 <= j < i ==> key_of(#[trigger] ts[j]) != k,
    ensures
        lookup_target(ts, k) == Some(ts[i]),
    decreases ts.len(),
{
    if i > 0 {
        assert(key_of(ts[0]) != k);
        assert(ts.skip(1)[i - 1] == ts[i]);
        assert(forall|j: int| 0 <= j < i - 1 ==> #[trigger] ts.skip(1)[j] == ts[j + 1]);
        lemma_lookup_finds(ts.skip(1), k, i - 1);
    }
}

proof fn lemma_lookup_in_all(t: Target, i: int)
    requires
        0 <= i < spec_all_targets().len(),
        spec_all_targets()[i] == t,
        forall|j: int| 0 <= j < i ==> #[trigger] spec_all_targets()[j] != t,
    ensures
        spec_target_of_key(key_of(t)) == Some(t),
{
    assert forall|j: int| 0 <= j < i implies key_of(#[trigger] spec_all_targets()[j]) != key_of(
        t,
    ) by {
        lemma_keys_injective(spec_all_targets()[j], t);
    }
    lemma_lookup_finds(spec_all_targets(), key_of(t), i);
}

/// Looking a key up finds exactly the control it was written for.
pub proof fn lemma_key_lookup(t: Target)
    ensures
        spec_target_of_key(key_of(t)) == Some(t),
{
    match t {
        Target::Btn(Button::South) => lemma_lookup_in_all(t, 0),
        Target::Btn(Button::East) => lemma_lookup_in_all(t, 1),
        Target::Btn(Button::West) => lemma_lookup_in_all(t, 2),
        Target::Btn(Button::North) => lemma_lookup_in_all(t, 3),
        Target::Btn(Button::Select) => lemma_lookup_in_all(t, 4),
        Target::Btn(Button::Mode) => lemma_lookup_in_all(t, 5),
        Target::Btn(Button::Start) => lemma_lookup_in_all(t, 6),
        Target::Btn(Button::LeftThumb) => lemma_lookup_in_all(t, 7),
        Target::Btn(Button::RightThumb) => lemma_lookup_in_all(t, 8),
        Target::Btn(Button::LeftTrigger) => lemma_lookup_in_all(t, 9),
        Target::Btn(Button::RightTrigger) => lemma_lookup_in_all(t, 10),
        Target::Btn(Button::DPadUp) => lemma_lookup_in_all(t, 11),
        Target::Btn(Button::DPadDown) => lemma_lookup_in_all(t, 12),
        Target::Btn(Button::DPadLeft) => lemma_lookup_in_all(t, 13),
        Target::Btn(Button::DPadRight) => lemma_lookup_in_all(t, 14),
        Target::Ax(Axis::LeftStickX) => lemma_lookup_in_all(t, 15),
        Target::Ax(Axis::LeftStickY) => lemma_lookup_in_all(t, 16),
        Target::Ax(Axis::RightStickX) => lemma_lookup_in_all(t, 17),
        Target::Ax(Axis::RightStickY) => lemma_lookup_in_all(t, 18),
        Target::Ax(Axis::LeftZ) => lemma_lookup_in_all(t, 19),
        Target::Ax(Axis::RightZ) => lemma_lookup_in_all(t, 20),
    }
}

} // verus!

verus! {

/// A serialized value holds neither separator nor assignment mark.
pub proof fn lemma_ser_value_chars(inp: NativeInput)
    ensures
        forall|j: int| 0 <= j < ser_value(inp).len() ==> ser_value(inp)[j] != ','
            && ser_value(inp)[j] != ':',
{
    let v = ser_value(inp);
    match inp {
        NativeInput::Button(n) => {
            lemma_dec_of_digits(n as nat);
            assert forall|j: int| 0 <= j < v.len() implies v[j] != ',' && v[j] != ':' by {
                if j == 0 {
                    assert(v[0] == 'b');
                } else {
                    assert(v[j] == dec_of(n as nat)[j - 1]);
                    assert(is_digit(dec_of(n as nat)[j - 1]));
                }
            }
        },
        NativeInput::Axis(n, half, inv) => {
            lemma_dec_of_digits(n as nat);
            let pre = match half {
                AxisHalf::Full => Seq::<char>::empty(),
                AxisHalf::Positive => seq!['+'],
                AxisHalf::Negative => seq!['-'],
            };
            let post = if inv { seq!['~'] } else { Seq::<char>::empty() };
            let d = dec_of(n as nat);
            assert(v == pre + seq!['a'] + d + post);
            assert forall|j: int| 0 <= j < v.len() implies v[j] != ',' && v[j] != ':' by {
                let p = pre.len();
                if j < p {
                    assert(v[j] == pre[j]);
                } else if j == p {
                    assert(v[j] == 'a');
                } else if j < p + 1 + d.len() {
                    assert(v[j] == d[j - p - 1]);
                    assert(is_digit(d[j - p - 1]));
                } else {
                    assert(v[j] == post[j - p - 1 - d.len()]);
                }
            }
        },
        NativeInput::Hat(n, bit) => {
            lemma_dec_of_digits(n as nat);
            lemma_dec_of_digits(bit as nat);
            let d1 = dec_of(n as nat);
            let d2 = dec_of(bit as nat);
            assert(v == seq!['h'] + d1 + seq!['.'] + d2);
            assert forall|j: int| 0 <= j < v.len() implies v[j] != ',' && v[j] != ':' by {
                if j == 0 {
                    assert(v[0] == 'h');
                } else if j < 1 + d1.len() {
                    assert(v[j] == d1[j - 1]);
                    assert(is_digit(d1[j - 1]));
                } else if j == 1 + d1.len() {
                    assert(v[j] == '.');
                } else {
                    assert(v[j] == d2[j - 2 - d1.len()]);
                    assert(is_digit(d2[j - 2 - d1.len()]));
                }
            }
        },
    }
}

/// Reading back a serialized value gives the native reference it was written
/// from.
pub proof fn lemma_value_inverts(inp: NativeInput)
    ensures
        spec_parse_value(ser_value(inp)) == Some(inp),
{
    let v = ser_value(inp);
    match inp {
        NativeInput::Button(n) => {
            lemma_dec_round_trip(n as nat);
            assert(v[0] == 'b');
            assert(v.skip(1) =~= dec_of(n as nat));
        },
        NativeInput::Hat(n, bit) => {
            lemma_dec_round_trip(n as nat);
            lemma_dec_round_trip(bit as nat);
            lemma_dec_of_digits(n as nat);
            let d1 = dec_of(n as nat);
            let d2 = dec_of(bit as nat);
            assert(v == seq!['h'] + d1 + seq!['.'] + d2);
            assert(v[0] == 'h');
            let rest = v.skip(1);
            assert(rest =~= d1 + seq!['.'] + d2);
            assert forall|j: int| 0 <= j < d1.len() implies d1[j] != '.' by {
                assert(is_digit(d1[j]));
            }
            lemma_first_index_append(d1, '.', d2);
            let d = first_index_of(rest, '.');
            assert(d == d1.len());
            assert(rest.take(d) =~= d1);
            assert(rest.skip(d + 1) =~= d2);
        },
        NativeInput::Axis(n, half, inv) => {
            lemma_dec_round_trip(n as nat);
            lemma_dec_of_digits(n as nat);
            let dec = dec_of(n as nat);
            let post = if inv { seq!['~'] } else { Seq::<char>::empty() };
            let pre = match half {
                AxisHalf::Full => Seq::<char>::empty(),
                AxisHalf::Positive => seq!['+'],
                AxisHalf::Negative => seq!['-'],
            };
            assert(v == pre + seq!['a'] + dec + post);
            let r1 = if v[0] == '+' || v[0] == '-' { v.skip(1) } else { v };
            match half {
                AxisHalf::Full => {
                    assert(v[0] == 'a');
                    assert(r1 == v);
                },
                AxisHalf::Positive => {
                    assert(v[0] == '+');
                    assert(r1 =~= seq!['a'] + dec + post);
                },
                AxisHalf::Negative => {
                    assert(v[0] == '-');
                    assert(r1 =~= seq!['a'] + dec + post);
                },
            }
            assert(r1 =~= seq!['a'] + dec + post);
            assert(r1[0] == 'a');
            let r2 = r1.skip(1);
            assert(r2 =~= dec + post);
            if inv {
                assert(r2.last() == '~');
                assert(r2.drop_last() =~= dec);
            } else {
                assert(r2 =~= dec);
                assert(is_digit(r2.last()));
                assert(r2.last() != '~');
            }
        },
    }
}

/// Reading back a serialized entry token gives the entry it was written from.
pub proof fn lemma_token_inverts(e: MapEntry)
    ensures
        spec_parse_token(ser_entry(e)) == TokenParse::Entry(e),
{
    let t = ser_entry(e);
    let key = key_of(e.target);
    let val = ser_value(e.input);
    lemma_key_chars(e.target);
    lemma_ser_value_chars(e.input);
    assert(t == key + seq![':'] + val);
    lemma_first_index_append(key, ':', val);
    let c = first_index_of(t, ':');
    assert(c == key.len());
    assert(t.len() == key.len() + 1 + val.len());
    assert(t.take(c) =~= key);
    assert(t.skip(c + 1) =~= val);
    lemma_key_lookup(e.target);
    lemma_value_inverts(e.input);
}

} // verus!

verus! {

/// The serialized tokens of the entries, in order.
pub open spec fn entry_tokens(es: Seq<MapEntry>) -> Seq<Seq<char>> {
    es.map_values(|e: MapEntry| ser_entry(e))
}

/// Splitting the serialized entries yields one token per entry and a final
/// empty token for the trailing comma.
pub proof fn lemma_entries_split(es: Seq<MapEntry>)
    ensures
        spec_split(ser_entries(es)) == entry_tokens(es) + seq![Seq::<char>::empty()],
    decreases es.len(),
{
    if es.len() == 0 {
        assert(ser_entries(es) == Seq::<char>::empty());
        assert(spec_split(Seq::<char>::empty()) =~~= entry_tokens(es) + seq![
            Seq::<char>::empty(),
        ]);
    } else {
        let tok = ser_entry(es[0]);
        lemma_key_chars(es[0].target);
        lemma_ser_value_chars(es[0].input);
        assert forall|j: int| 0 <= j < tok.len() implies tok[j] != ',' by {
            let key = key_of(es[0].target);
            let val = ser_value(es[0].input);
            if j < key.len() {
                assert(tok[j] == key[j]);
            } else if j == key.len() {
                assert(tok[j] == ':');
            } else {
                assert(tok[j] == val[j - key.len() - 1]);
            }
        }
        lemma_split_prefix(tok, ser_entries(es.skip(1)));
        lemma_entries_split(es.skip(1));
        assert(spec_split(ser_entries(es)) == seq![tok] + spec_split(ser_entries(es.skip(1))));
        assert(entry_tokens(es) =~~= seq![tok] + entry_tokens(es.skip(1)));
        assert(spec_split(ser_entries(es)) =~~= entry_tokens(es) + seq![Seq::<char>::empty()]);
    }
}

/// Reading entry tokens followed by one empty token yields exactly the
/// entries they were written from.
pub proof fn lemma_parse_entries_suffix(toks: Seq<Seq<char>>, i: nat, es: Seq<MapEntry>)
    requires
        i <= toks.len(),
        toks.skip(i as int) == entry_tokens(es) + seq![Seq::<char>::empty()],
    ensures
        parse_entries(toks, i) == Ok::<Seq<MapEntry>, MappingError>(es),
    decreases toks.len() - i,
{
    assert(entry_tokens(es).len() == es.len());
    assert(toks.skip(i as int).len() == es.len() + 1);
    assert(i < toks.len());
    assert(toks[i as int] == toks.skip(i as int)[0]);
    assert(toks.skip(i as int).skip(1) =~~= toks.skip(i as int + 1));
    if es.len() == 0 {
        assert(toks[i as int] == Seq::<char>::empty());
        assert(spec_parse_token(toks[i as int]) == TokenParse::Skip);
        assert(i + 1 == toks.len());
        assert(parse_entries(toks, i + 1) == Ok::<Seq<MapEntry>, MappingError>(
            Seq::<MapEntry>::empty(),
        ));
        assert(es =~= Seq::<MapEntry>::empty());
    } else {
        assert(toks[i as int] == entry_tokens(es)[0]);
        assert(entry_tokens(es)[0] == ser_entry(es[0]));
        lemma_token_inverts(es[0]);
        assert(toks.skip(i as int + 1) =~~= entry_tokens(es.skip(1)) + seq![Seq::<char>::empty()]);
        lemma_parse_entries_suffix(toks, i + 1, es.skip(1));
        assert(seq![es[0]] + es.skip(1) =~= es);
    }
}

/// The round-trip law: re-parsing a serialized well-formed mapping gives it
/// back unchanged, entry for entry. With `lemma_parse_wf` this makes
/// parse-then-serialize idempotent on mapping lines.
pub proof fn lemma_mapping_round_trip(m: MappingView)
    requires
        wf_mapping(m),
    ensures
        spec_parse(spec_serialize(m)) == Ok::<MappingView, MappingError>(m),
{
    let s = spec_serialize(m);
    assert forall|j: int| 0 <= j < m.guid.len() implies m.guid[j] != ',' by {
        assert(is_hex_digit(m.guid[j]));
    }
    let tail = m.name + seq![','] + ser_entries(m.entries);
    assert(s =~= m.guid + seq![','] + tail);
    lemma_split_prefix(m.guid, tail);
    lemma_split_prefix(m.name, ser_entries(m.entries));
    lemma_entries_split(m.entries);
    let toks = spec_split(s);
    assert(toks == seq![m.guid] + spec_split(tail));
    assert(spec_split(tail) == seq![m.name] + spec_split(ser_entries(m.entries)));
    assert(toks =~~= seq![m.guid, m.name] + entry_tokens(m.entries) + seq![Seq::<char>::empty()]);
    assert(toks.len() == 2 + m.entries.len() + 1);
    assert(toks[0] == m.guid);
    assert(toks[1] == m.name);
    assert(valid_guid(toks[0]));
    assert(toks.skip(2) =~~= entry_tokens(m.entries) + seq![Seq::<char>::empty()]);
    lemma_parse_entries_suffix(toks, 2, m.entries);
    let r = spec_parse(s);
    assert(r == Ok::<MappingView, MappingError>(
        MappingView { guid: toks[0], name: toks[1], entries: m.entries },
    ));
    assert(MappingView { guid: toks[0], name: toks[1], entries: m.entries } =~= m);
}

/// Whatever the line grammar accepts is well formed, so its round trip goes
/// through.
pub proof fn lemma_parse_wf(s: Seq<char>)
    requires
        spec_parse(s) is Ok,
    ensures
        wf_mapping(spec_parse(s)->Ok_0),
{
    let toks = spec_split(s);
    lemma_split_len(s);
    let m = spec_parse(s)->Ok_0;
    assert(m.guid == toks[0] && m.name == toks[1]);
    assert(valid_guid(m.guid));
    assert forall|j: int| 0 <= j < m.name.len() implies m.name[j] != ',' by {
        lemma_split_no_comma(s, 1, j);
    }
}

/// Parsing then re-serializing a well-formed mapping line is idempotent: the
/// canonical form re-parses to the same mapping, so a second
/// parse-and-serialize pass changes nothing.
pub proof fn lemma_parse_serialize_idempotent(s: Seq<char>)
    requires
        spec_parse(s) is Ok,
    ensures
        spec_parse(spec_serialize(spec_parse(s)->Ok_0)) == spec_parse(s),
{
    lemma_parse_wf(s);
    lemma_mapping_round_trip(spec_parse(s)->Ok_0);
}

} // verus!
