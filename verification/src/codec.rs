//! The snapshot storage format: one JSON object mapping each file path to
//! an object with the digest, the modification time and the size, as in
//! `{"a/b":{"hash":"ab12","modified":5,"size":3}}`.
//!
//! The writer emits the compact form below; the parser accepts it back,
//! with whitespace between tokens and the simple string escapes. Loading
//! and then saving a snapshot reproduces its content exactly.

use vstd::prelude::*;

use crate::assoc::assoc_map;
use crate::meta::{FileMeta, MetaView};
use crate::snapshot::SnapshotMap;

verus! {

// ----- what the writer emits, at the spec level -----

/// How one character stands inside a JSON string: quote and backslash are
/// escaped, everything else stands for itself.
pub open spec fn esc_char(c: char) -> Seq<char> {
    if c == '"' || c == '\\' {
        seq!['\\', c]
    } else {
        seq![c]
    }
}

/// The escaped body of a JSON string.
pub open spec fn ser_chars(s: Seq<char>) -> Seq<char>
    decreases s.len(),
{
    if s.len() == 0 {
        Seq::empty()
    } else {
        esc_char(s.first()) + ser_chars(s.drop_first())
    }
}

/// A JSON string: quoted escaped body.
pub open spec fn ser_string(s: Seq<char>) -> Seq<char> {
    seq!['"'] + ser_chars(s) + seq!['"']
}

/// The digit character of one decimal digit.
pub open spec fn dchar(d: nat) -> char {
    ((48 + d) as u8) as char
}

/// A natural number in decimal, most significant digit first.
pub open spec fn ser_nat(n: nat) -> Seq<char>
    decreases n,
{
    if n < 10 {
        seq![dchar(n)]
    } else {
        ser_nat(n / 10) + seq![dchar(n % 10)]
    }
}

/// A signed integer in decimal.
pub open spec fn ser_int(n: int) -> Seq<char> {
    if n < 0 {
        seq!['-'] + ser_nat((-n) as nat)
    } else {
        ser_nat(n as nat)
    }
}

pub open spec fn lit_hash() -> Seq<char> {
    seq!['"', 'h', 'a', 's', 'h', '"', ':']
}

pub open spec fn lit_modified() -> Seq<char> {
    seq!['"', 'm', 'o', 'd', 'i', 'f', 'i', 'e', 'd', '"', ':']
}

pub open spec fn lit_size() -> Seq<char> {
    seq!['"', 's', 'i', 'z', 'e', '"', ':']
}

/// One fingerprint record as a JSON object.
pub open spec fn ser_meta(m: MetaView) -> Seq<char> {
    seq!['{'] + lit_hash() + ser_string(m.hash) + seq![','] + lit_modified() + ser_nat(
        m.modified as nat,
    ) + seq![','] + lit_size() + ser_int(m.size as int) + seq!['}']
}

/// One snapshot entry: quoted path, colon, record object.
pub open spec fn ser_entry(e: (Seq<char>, MetaView)) -> Seq<char> {
    ser_string(e.0) + seq![':'] + ser_meta(e.1)
}

/// The comma-separated tail of an entry list.
pub open spec fn ser_entries_rest(es: Seq<(Seq<char>, MetaView)>) -> Seq<char>
    decreases es.len(),
{
    if es.len() == 0 {
        Seq::empty()
    } else {
        seq![','] + ser_entry(es.first()) + ser_entries_rest(es.drop_first())
    }
}

/// A comma-separated entry list.
pub open spec fn ser_entries(es: Seq<(Seq<char>, MetaView)>) -> Seq<char> {
    if es.len() == 0 {
        Seq::empty()
    } else {
        ser_entry(es.first()) + ser_entries_rest(es.drop_first())
    }
}

/// A whole snapshot as one JSON object.
pub open spec fn ser_snapshot(es: Seq<(Seq<char>, MetaView)>) -> Seq<char> {
    seq!['{'] + ser_entries(es) + seq!['}']
}

// ----- trusted bridges between String and Vec<char> -----

/// Relies on str::chars: the characters of a string, in order.
#[verifier::external_body]
fn chars_of(s: &str) -> (r: Vec<char>)
    ensures
        r@ == s@,
{
    s.chars().collect()
}

/// Relies on FromIterator for String over chars: the string these
/// characters spell.
#[verifier::external_body]
fn string_of(v: &Vec<char>) -> (r: String)
    ensures
        r@ == v@,
{
    v.iter().collect()
}

// ----- the writer -----

proof fn lemma_ser_chars_push(s: Seq<char>, c: char)
    ensures
        ser_chars(s.push(c)) == ser_chars(s) + esc_char(c),
    decreases s.len(),
{
    if s.len() == 0 {
        assert(s.push(c).drop_first() =~= s);
        assert(ser_chars(s.push(c)) =~= ser_chars(s) + esc_char(c));
    } else {
        assert(s.push(c).drop_first() =~= s.drop_first().push(c));
        lemma_ser_chars_push(s.drop_first(), c);
        assert(ser_chars(s.push(c)) =~= ser_chars(s) + esc_char(c));
    }
}

fn write_escaped(out: &mut Vec<char>, s: &String)
    ensures
        final(out)@ == old(out)@ + ser_chars(s@),
{
    let cs = chars_of(s.as_str());
    let n = cs.len();
    let mut i: usize = 0;
    while i < n
        invariant
            n == cs@.len(),
            cs@ == s@,
            i <= n,
            out@ == old(out)@ + ser_chars(cs@.take(i as int)),
        decreases n - i,
    {
        let c = cs[i];
        if c == '"' || c == '\\' {
            out.push('\\');
            out.push(c);
        } else {
            out.push(c);
        }
        proof {
            assert(cs@.take(i + 1) =~= cs@.take(i as int).push(cs@[i as int]));
            lemma_ser_chars_push(cs@.take(i as int), cs@[i as int]);
            assert(out@ =~= old(out)@ + ser_chars(cs@.take(i + 1)));
        }
        i += 1;
    }
    proof {
        assert(cs@.take(n as int) =~= cs@);
    }
}

fn write_string(out: &mut Vec<char>, s: &String)
    ensures
        final(out)@ == old(out)@ + ser_string(s@),
{
    out.push('"');
    write_escaped(out, s);
    out.push('"');
    proof {
        assert(out@ =~= old(out)@ + ser_string(s@));
    }
}

fn write_nat(out: &mut Vec<char>, n: u64)
    ensures
        final(out)@ == old(out)@ + ser_nat(n as nat),
    decreases n,
{
    if n < 10 {
        out.push((48 + n as u8) as char);
        proof {
            assert(out@ =~= old(out)@ + ser_nat(n as nat));
        }
    } else {
        write_nat(out, n / 10);
        out.push((48 + (n % 10) as u8) as char);
        proof {
            assert(out@ =~= old(out)@ + ser_nat(n as nat));
        }
    }
}

fn write_int(out: &mut Vec<char>, n: i64)
    ensures
        final(out)@ == old(out)@ + ser_int(n as int),
{
    if n < 0 {
        out.push('-');
        let mag: u64 = ((-(n + 1)) as u64) + 1;
        assert(mag as nat == (-(n as int)) as nat);
        write_nat(out, mag);
        proof {
            assert(out@ =~= old(out)@ + ser_int(n as int));
        }
    } else {
        write_nat(out, n as u64);
        assert(n as int >= 0 && (n as u64) as nat == (n as int) as nat);
    }
}

fn write_meta(out: &mut Vec<char>, m: &FileMeta)
    ensures
        final(out)@ == old(out)@ + ser_meta(m@),
{
    out.push('{');
    out.push('"');
    out.push('h');
    out.push('a');
    out.push('s');
    out.push('h');
    out.push('"');
    out.push(':');
    write_string(out, &m.hash);
    out.push(',');
    out.push('"');
    out.push('m');
    out.push('o');
    out.push('d');
    out.push('i');
    out.push('f');
    out.push('i');
    out.push('e');
    out.push('d');
    out.push('"');
    out.push(':');
    write_nat(out, m.modified);
    out.push(',');
    out.push('"');
    out.push('s');
    out.push('i');
    out.push('z');
    out.push('e');
    out.push('"');
    out.push(':');
    write_int(out, m.size);
    out.push('}');
    proof {
        assert(out@ =~= old(out)@ + ser_meta(m@));
    }
}

proof fn lemma_ser_entries_push(es: Seq<(Seq<char>, MetaView)>, e: (Seq<char>, MetaView))
    ensures
        es.len() == 0 ==> ser_entries(es.push(e)) == ser_entry(e),
        es.len() > 0 ==> ser_entries(es.push(e)) == ser_entries(es) + seq![','] + ser_entry(e),
    decreases es.len(),
{
    if es.len() == 0 {
        assert(es.push(e).first() == e);
        assert(es.push(e).drop_first() =~= Seq::<(Seq<char>, MetaView)>::empty());
        assert(ser_entries(es.push(e)) =~= ser_entry(e));
    } else {
        lemma_ser_entries_rest_push(es.drop_first(), e);
        assert(es.push(e).drop_first() =~= es.drop_first().push(e));
        assert(es.push(e).first() == es.first());
        let a = ser_entry(es.first());
        let b = ser_entries_rest(es.drop_first());
        let c = seq![','] + ser_entry(e);
        assert(ser_entries(es.push(e)) == a + ser_entries_rest(es.drop_first().push(e)));
        assert(ser_entries_rest(es.drop_first().push(e)) =~= b + c);
        assert(a + (b + c) =~= (a + b) + c);
        assert(ser_entries(es) == a + b);
        assert((a + b) + c =~= ser_entries(es) + seq![','] + ser_entry(e));
    }
}

proof fn lemma_ser_entries_rest_push(es: Seq<(Seq<char>, MetaView)>, e: (Seq<char>, MetaView))
    ensures
        ser_entries_rest(es.push(e)) == ser_entries_rest(es) + seq![','] + ser_entry(e),
    decreases es.len(),
{
    if es.len() == 0 {
        assert(es.push(e).first() == e);
        assert(es.push(e).drop_first() =~= Seq::<(Seq<char>, MetaView)>::empty());
        assert(ser_entries_rest(es.push(e)) == seq![','] + ser_entry(e) + ser_entries_rest(
            es.push(e).drop_first(),
        ));
        assert(ser_entries_rest(es.push(e).drop_first()) == Seq::<char>::empty());
        assert(ser_entries_rest(es) == Seq::<char>::empty());
        assert(seq![','] + ser_entry(e) + Seq::<char>::empty() =~= Seq::<char>::empty() + seq![
            ','
        ] + ser_entry(e));
    } else {
        lemma_ser_entries_rest_push(es.drop_first(), e);
        assert(es.push(e).drop_first() =~= es.drop_first().push(e));
        assert(es.push(e).first() == es.first());
        let a = seq![','] + ser_entry(es.first());
        let b = ser_entries_rest(es.drop_first());
        let c = seq![','] + ser_entry(e);
        assert(ser_entries_rest(es.push(e)) == a + ser_entries_rest(es.drop_first().push(e)));
        assert(ser_entries_rest(es.drop_first().push(e)) =~= b + c);
        assert(a + (b + c) =~= (a + b) + c);
        assert(ser_entries_rest(es) == a + b);
        assert((a + b) + c =~= ser_entries_rest(es) + seq![','] + ser_entry(e));
    }
}

/// Serialize a snapshot to the JSON text the store holds.
pub fn save_snapshot(m: &SnapshotMap) -> (out: Vec<char>)
    ensures
        out@ == ser_snapshot(m.seq()),
{
    let mut out: Vec<char> = Vec::new();
    out.push('{');
    let n = m.len();
    let mut i: usize = 0;
    while i < n
        invariant
            n == m.seq().len(),
            i <= n,
            out@ == seq!['{'] + ser_entries(m.seq().take(i as int)),
        decreases n - i,
    {
        if i > 0 {
            out.push(',');
        }
        let entry = m.entry_at(i);
        write_string(&mut out, &entry.0);
        out.push(':');
        write_meta(&mut out, &entry.1);
        proof {
            assert(m.seq().take(i + 1) =~= m.seq().take(i as int).push(m.seq()[i as int]));
            lemma_ser_entries_push(m.seq().take(i as int), m.seq()[i as int]);
            assert(out@ =~= seq!['{'] + ser_entries(m.seq().take(i + 1)));
        }
        i += 1;
    }
    out.push('}');
    proof {
        assert(m.seq().take(n as int) =~= m.seq());
        assert(out@ =~= ser_snapshot(m.seq()));
    }
    out
}

/// Serialize a snapshot straight to a string.
pub fn save_snapshot_string(m: &SnapshotMap) -> (out: String)
    ensures
        out@ == ser_snapshot(m.seq()),
{
    let v = save_snapshot(m);
    string_of(&v)
}

// ----- what the parser accepts, at the spec level -----

pub open spec fn is_ws(c: char) -> bool {
    c == ' ' || c == '\n' || c == '\t' || c == '\r'
}

/// The first position at or after `i` that holds no whitespace.
pub open spec fn skip_ws(s: Seq<char>, i: int) -> int
    decreases s.len() - i,
{
    if 0 <= i < s.len() && is_ws(s[i]) {
        skip_ws(s, i + 1)
    } else {
        i
    }
}

/// What a backslash escape stands for.
pub open spec fn unescape(c: char) -> Option<char> {
    if c == '"' {
        Some('"')
    } else if c == '\\' {
        Some('\\')
    } else if c == '/' {
        Some('/')
    } else if c == 'n' {
        Some('\n')
    } else if c == 't' {
        Some('\t')
    } else if c == 'r' {
        Some('\r')
    } else {
        None
    }
}

/// The body of a JSON string up to its closing quote: the characters it
/// spells, and the position after the quote.
pub open spec fn parse_chars(s: Seq<char>, i: int) -> Option<(Seq<char>, int)>
    decreases s.len() - i,
{
    if i < 0 || i >= s.len() {
        None
    } else if s[i] == '"' {
        Some((Seq::empty(), i + 1))
    } else if s[i] == '\\' {
        if i + 1 < s.len() {
            match unescape(s[i + 1]) {
                Some(u) => match parse_chars(s, i + 2) {
                    Some((cs, j)) => Some((seq![u] + cs, j)),
                    None => None,
                },
                None => None,
            }
        } else {
            None
        }
    } else {
        match parse_chars(s, i + 1) {
            Some((cs, j)) => Some((seq![s[i]] + cs, j)),
            None => None,
        }
    }
}

/// A quoted JSON string.
pub open spec fn parse_string(s: Seq<char>, i: int) -> Option<(Seq<char>, int)> {
    if 0 <= i < s.len() && s[i] == '"' {
        parse_chars(s, i + 1)
    } else {
        None
    }
}

pub open spec fn is_digit(c: char) -> bool {
    48 <= c as u32 <= 57
}

pub open spec fn dval(c: char) -> nat {
    ((c as u32) - 48) as nat
}

/// A run of decimal digits folded into `acc`; stops at the first
/// non-digit, fails on overflow.
pub open spec fn parse_digits(s: Seq<char>, i: int, acc: u64) -> Option<(u64, int)>
    decreases s.len() - i,
{
    if 0 <= i < s.len() && is_digit(s[i]) {
        if acc as int * 10 + dval(s[i]) > u64::MAX as int {
            None
        } else {
            parse_digits(s, i + 1, (acc as int * 10 + dval(s[i])) as u64)
        }
    } else {
        Some((acc, i))
    }
}

/// An unsigned decimal number: at least one digit.
pub open spec fn parse_u64(s: Seq<char>, i: int) -> Option<(u64, int)> {
    if 0 <= i < s.len() && is_digit(s[i]) {
        parse_digits(s, i, 0)
    } else {
        None
    }
}

/// A signed decimal number within the signed 64-bit range.
pub open spec fn parse_i64(s: Seq<char>, i: int) -> Option<(i64, int)> {
    if 0 <= i < s.len() && s[i] == '-' {
        match parse_u64(s, i + 1) {
            Some((mag, j)) => if mag > 9223372036854775808u64 {
                None
            } else {
                Some(((-(mag as int)) as i64, j))
            },
            None => None,
        }
    } else {
        match parse_u64(s, i) {
            Some((mag, j)) => if mag > i64::MAX as u64 {
                None
            } else {
                Some((mag as i64, j))
            },
            None => None,
        }
    }
}

/// One record object `{"hash":…,"modified":…,"size":…}`, keys in that
/// order, whitespace between tokens allowed.
pub open spec fn parse_meta(s: Seq<char>, i: int) -> Option<(MetaView, int)> {
    if !(0 <= i < s.len() && s[i] == '{') {
        None
    } else {
        match parse_string(s, skip_ws(s, i + 1)) {
            Some((k1, a1)) => if k1 == seq!['h', 'a', 's', 'h'] {
                let b1 = skip_ws(s, a1);
                if b1 < s.len() && s[b1] == ':' {
                    match parse_string(s, skip_ws(s, b1 + 1)) {
                        Some((hash, a2)) => {
                            let b2 = skip_ws(s, a2);
                            if b2 < s.len() && s[b2] == ',' {
                                match parse_string(s, skip_ws(s, b2 + 1)) {
                                    Some((k2, a3)) => if k2 == seq![
                                        'm', 'o', 'd', 'i', 'f', 'i', 'e', 'd',
                                    ] {
                                        let b3 = skip_ws(s, a3);
                                        if b3 < s.len() && s[b3] == ':' {
                                            match parse_u64(s, skip_ws(s, b3 + 1)) {
                                                Some((modified, a4)) => {
                                                    let b4 = skip_ws(s, a4);
                                                    if b4 < s.len() && s[b4] == ',' {
                                                        match parse_string(s, skip_ws(s, b4 + 1)) {
                                                            Some((k3, a5)) => if k3 == seq![
                                                                's', 'i', 'z', 'e',
                                                            ] {
                                                                let b5 = skip_ws(s, a5);
                                                                if b5 < s.len() && s[b5] == ':' {
                                                                    match parse_i64(
                                                                        s,
                                                                        skip_ws(s, b5 + 1),
                                                                    ) {
                                                                        Some((size, a6)) => {
                                                                            let b6 = skip_ws(s, a6);
                                                                            if b6 < s.len() && s[b6]
                                                                                == '}' {
                                                                                Some((
                                                                                    MetaView {
                                                                                        hash,
                                                                                        modified,
                                                                                        size,
                                                                                    },
                                                                                    b6 + 1,
                                                                                ))
                                                                            } else {
                                                                                None
                                                                            }
                                                                        },
                                                                        None => None,
                                                                    }
                                                                } else {
                                                                    None
                                                                }
                                                            } else {
                                                                None
                                                            },
                                                            None => None,
                                                        }
                                                    } else {
                                                        None
                                                    }
                                                },
                                                None => None,
                                            }
                                        } else {
                                            None
                                        }
                                    } else {
                                        None
                                    },
                                    None => None,
                                }
                            } else {
                                None
                            }
                        },
                        None => None,
                    }
                } else {
                    None
                }
            } else {
                None
            },
            None => None,
        }
    }
}

/// One snapshot entry: quoted path, colon, record object.
pub open spec fn parse_entry(s: Seq<char>, i: int) -> Option<((Seq<char>, MetaView), int)> {
    match parse_string(s, i) {
        Some((path, a)) => {
            let b = skip_ws(s, a);
            if b < s.len() && s[b] == ':' {
                match parse_meta(s, skip_ws(s, b + 1)) {
                    Some((m, j)) => Some(((path, m), j)),
                    None => None,
                }
            } else {
                None
            }
        },
        None => None,
    }
}

/// The entries after the first: a comma and an entry each, up to the
/// closing brace.
pub open spec fn parse_entries_rest(s: Seq<char>, i: int, fuel: nat) -> Option<(
    Seq<(Seq<char>, MetaView)>,
    int,
)>
    decreases fuel,
{
    let b = skip_ws(s, i);
    if b < s.len() && s[b] == '}' {
        Some((Seq::empty(), b + 1))
    } else if b < s.len() && s[b] == ',' && fuel > 0 {
        match parse_entry(s, skip_ws(s, b + 1)) {
            Some((e, j)) => match parse_entries_rest(s, j, (fuel - 1) as nat) {
                Some((es, j2)) => Some((seq![e] + es, j2)),
                None => None,
            },
            None => None,
        }
    } else {
        None
    }
}

/// A whole snapshot text: one JSON object, nothing but whitespace after it.
pub open spec fn parse_snapshot(s: Seq<char>) -> Option<Seq<(Seq<char>, MetaView)>> {
    let i0 = skip_ws(s, 0);
    if !(i0 < s.len() && s[i0] == '{') {
        None
    } else {
        let i1 = skip_ws(s, i0 + 1);
        if i1 < s.len() && s[i1] == '}' {
            if skip_ws(s, i1 + 1) == s.len() {
                Some(Seq::empty())
            } else {
                None
            }
        } else {
            match parse_entry(s, i1) {
                Some((e, j)) => match parse_entries_rest(s, j, s.len() as nat) {
                    Some((es, j2)) => if skip_ws(s, j2) == s.len() {
                        Some(seq![e] + es)
                    } else {
                        None
                    },
                    None => None,
                },
                None => None,
            }
        }
    }
}

// ----- the parser -----

fn ws_at(v: &Vec<char>, j: usize) -> (r: bool)
    ensures
        r == (j < v@.len() && is_ws(v@[j as int])),
{
    if j < v.len() {
        let c = v[j];
        c == ' ' || c == '\n' || c == '\t' || c == '\r'
    } else {
        false
    }
}

fn skip_ws_exec(v: &Vec<char>, i: usize) -> (j: usize)
    requires
        i <= v@.len(),
    ensures
        j as int == skip_ws(v@, i as int),
        i <= j <= v@.len(),
{
    let n = v.len();
    let mut j = i;
    while ws_at(v, j)
        invariant
            i <= j <= n,
            n == v@.len(),
            skip_ws(v@, i as int) == skip_ws(v@, j as int),
        decreases n - j,
    {
        j += 1;
    }
    j
}

fn parse_chars_exec(v: &Vec<char>, i: usize) -> (r: Option<(Vec<char>, usize)>)
    ensures
        match r {
            Some(p) => parse_chars(v@, i as int) == Some((p.0@, p.1 as int)) && p.1 <= v@.len(),
            None => parse_chars(v@, i as int) is None,
        },
    decreases v@.len() - i,
{
    if i >= v.len() {
        return None;
    }
    let c = v[i];
    if c == '"' {
        let empty: Vec<char> = Vec::new();
        proof {
            assert(empty@ =~= Seq::<char>::empty());
        }
        return Some((empty, i + 1));
    }
    if c == '\\' {
        if i + 1 < v.len() {
            let e = v[i + 1];
            if e == '"' || e == '\\' || e == '/' || e == 'n' || e == 't' || e == 'r' {
                let u: char = if e == '"' {
                    '"'
                } else if e == '\\' {
                    '\\'
                } else if e == '/' {
                    '/'
                } else if e == 'n' {
                    '\n'
                } else if e == 't' {
                    '\t'
                } else {
                    '\r'
                };
                match parse_chars_exec(v, i + 2) {
                    Some((cs, j)) => {
                        let ghost tail = cs@;
                        let mut cs = cs;
                        cs.insert(0, u);
                        proof {
                            assert(cs@ =~= seq![u] + tail);
                        }
                        Some((cs, j))
                    },
                    None => None,
                }
            } else {
                None
            }
        } else {
            None
        }
    } else {
        match parse_chars_exec(v, i + 1) {
            Some((cs, j)) => {
                let ghost tail = cs@;
                let mut cs = cs;
                cs.insert(0, c);
                proof {
                    assert(cs@ =~= seq![c] + tail);
                }
                Some((cs, j))
            },
            None => None,
        }
    }
}

fn parse_string_exec(v: &Vec<char>, i: usize) -> (r: Option<(Vec<char>, usize)>)
    ensures
        match r {
            Some(p) => parse_string(v@, i as int) == Some((p.0@, p.1 as int)) && p.1 <= v@.len(),
            None => parse_string(v@, i as int) is None,
        },
{
    if i < v.len() {
        if v[i] == '"' {
            return parse_chars_exec(v, i + 1);
        }
    }
    None
}

proof fn lemma_overflow_guard(acc: u64, d: u64)
    requires
        d <= 9,
    ensures
        (acc > ((u64::MAX - d) / 10)) <==> (acc as int * 10 + d as int > u64::MAX as int),
{
    let m = u64::MAX as int;
    let dd = d as int;
    let q = (m - dd) / 10;
    let r = (m - dd) % 10;
    vstd::arithmetic::div_mod::lemma_fundamental_div_mod(m - dd, 10);
    assert(0 <= r < 10);
    if acc as int > q {
        assert(acc as int * 10 >= (q + 1) * 10) by (nonlinear_arith)
            requires
                acc as int >= q + 1,
        ;
        assert((q + 1) * 10 == 10 * q + 10);
    } else {
        assert(acc as int * 10 <= q * 10) by (nonlinear_arith)
            requires
                acc as int <= q,
        ;
        assert(q * 10 == 10 * q);
    }
}

fn parse_digits_exec(v: &Vec<char>, i: usize, acc: u64) -> (r: Option<(u64, usize)>)
    requires
        i <= v@.len(),
    ensures
        match r {
            Some(p) => parse_digits(v@, i as int, acc) == Some((p.0, p.1 as int)) && i <= p.1
                <= v@.len(),
            None => parse_digits(v@, i as int, acc) is None,
        },
    decreases v@.len() - i,
{
    if i < v.len() {
        let c = v[i];
        let cu = c as u32;
        if 48 <= cu && cu <= 57 {
            let d: u64 = (cu - 48) as u64;
            proof {
                lemma_overflow_guard(acc, d);
            }
            if acc > (u64::MAX - d) / 10 {
                return None;
            }
            return parse_digits_exec(v, i + 1, acc * 10 + d);
        }
    }
    Some((acc, i))
}

fn parse_u64_exec(v: &Vec<char>, i: usize) -> (r: Option<(u64, usize)>)
    ensures
        match r {
            Some(p) => parse_u64(v@, i as int) == Some((p.0, p.1 as int)) && p.1 <= v@.len(),
            None => parse_u64(v@, i as int) is None,
        },
{
    if i < v.len() {
        let cu = v[i] as u32;
        if 48 <= cu && cu <= 57 {
            return parse_digits_exec(v, i, 0);
        }
    }
    None
}

fn parse_i64_exec(v: &Vec<char>, i: usize) -> (r: Option<(i64, usize)>)
    ensures
        match r {
            Some(p) => parse_i64(v@, i as int) == Some((p.0, p.1 as int)) && p.1 <= v@.len(),
            None => parse_i64(v@, i as int) is None,
        },
{
    if i < v.len() && v[i] == '-' {
        match parse_u64_exec(v, i + 1) {
            Some((mag, j)) => {
                if mag > 9223372036854775808u64 {
                    None
                } else if mag == 9223372036854775808u64 {
                    Some((i64::MIN, j))
                } else {
                    Some((-(mag as i64), j))
                }
            },
            None => None,
        }
    } else {
        match parse_u64_exec(v, i) {
            Some((mag, j)) => {
                if mag > i64::MAX as u64 {
                    None
                } else {
                    Some((mag as i64, j))
                }
            },
            None => None,
        }
    }
}

fn parse_meta_exec(v: &Vec<char>, i: usize) -> (r: Option<(FileMeta, usize)>)
    ensures
        match r {
            Some(p) => parse_meta(v@, i as int) == Some((p.0@, p.1 as int)) && p.1 <= v@.len(),
            None => parse_meta(v@, i as int) is None,
        },
{
    if !(i < v.len()) {
        return None;
    }
    if !(v[i] == '{') {
        return None;
    }
    let a1 = skip_ws_exec(v, i + 1);
    let (k1, j1) = match parse_string_exec(v, a1) {
        Some(p) => p,
        None => {
            return None;
        },
    };
    let k1_ok = k1.len() == 4 && k1[0] == 'h' && k1[1] == 'a' && k1[2] == 's' && k1[3] == 'h';
    proof {
        if k1_ok {
            assert(k1@ =~= seq!['h', 'a', 's', 'h']);
        }
    }
    if !k1_ok {
        return None;
    }
    let b1 = skip_ws_exec(v, j1);
    if !(b1 < v.len() && v[b1] == ':') {
        return None;
    }
    let c1 = skip_ws_exec(v, b1 + 1);
    let (hash, j2) = match parse_string_exec(v, c1) {
        Some(p) => p,
        None => {
            return None;
        },
    };
    let b2 = skip_ws_exec(v, j2);
    if !(b2 < v.len() && v[b2] == ',') {
        return None;
    }
    let c2 = skip_ws_exec(v, b2 + 1);
    let (k2, j3) = match parse_string_exec(v, c2) {
        Some(p) => p,
        None => {
            return None;
        },
    };
    let k2_ok = k2.len() == 8 && k2[0] == 'm' && k2[1] == 'o' && k2[2] == 'd' && k2[3] == 'i'
        && k2[4] == 'f' && k2[5] == 'i' && k2[6] == 'e' && k2[7] == 'd';
    proof {
        if k2_ok {
            assert(k2@ =~= seq!['m', 'o', 'd', 'i', 'f', 'i', 'e', 'd']);
        }
    }
    if !k2_ok {
        return None;
    }
    let b3 = skip_ws_exec(v, j3);
    if !(b3 < v.len() && v[b3] == ':') {
        return None;
    }
    let c3 = skip_ws_exec(v, b3 + 1);
    let (modified, j4) = match parse_u64_exec(v, c3) {
        Some(p) => p,
        None => {
            return None;
        },
    };
    let b4 = skip_ws_exec(v, j4);
    if !(b4 < v.len() && v[b4] == ',') {
        return None;
    }
    let c4 = skip_ws_exec(v, b4 + 1);
    let (k3, j5) = match parse_string_exec(v, c4) {
        Some(p) => p,
        None => {
            return None;
        },
    };
    let k3_ok = k3.len() == 4 && k3[0] == 's' && k3[1] == 'i' && k3[2] == 'z' && k3[3] == 'e';
    proof {
        if k3_ok {
            assert(k3@ =~= seq!['s', 'i', 'z', 'e']);
        }
    }
    if !k3_ok {
        return None;
    }
    let b5 = skip_ws_exec(v, j5);
    if !(b5 < v.len() && v[b5] == ':') {
        return None;
    }
    let c5 = skip_ws_exec(v, b5 + 1);
    let (size, j6) = match parse_i64_exec(v, c5) {
        Some(p) => p,
        None => {
            return None;
        },
    };
    let b6 = skip_ws_exec(v, j6);
    if !(b6 < v.len() && v[b6] == '}') {
        return None;
    }
    let meta = FileMeta { hash: string_of(&hash), modified, size };
    Some((meta, b6 + 1))
}

fn parse_entry_exec(v: &Vec<char>, i: usize) -> (r: Option<((String, FileMeta), usize)>)
    ensures
        match r {
            Some(p) => parse_entry(v@, i as int) == Some((((p.0).0@, (p.0).1@), p.1 as int))
                && p.1 <= v@.len(),
            None => parse_entry(v@, i as int) is None,
        },
{
    let (path, a) = match parse_string_exec(v, i) {
        Some(p) => p,
        None => {
            return None;
        },
    };
    let b = skip_ws_exec(v, a);
    if !(b < v.len() && v[b] == ':') {
        return None;
    }
    let c = skip_ws_exec(v, b + 1);
    match parse_meta_exec(v, c) {
        Some((m, j)) => Some(((string_of(&path), m), j)),
        None => None,
    }
}

fn parse_entries_rest_exec(v: &Vec<char>, i: usize, fuel: usize) -> (r: Option<(
    Vec<(String, FileMeta)>,
    usize,
)>)
    requires
        i <= v@.len(),
    ensures
        match r {
            Some(p) => parse_entries_rest(v@, i as int, fuel as nat) == Some((
                crate::snapshot::entry_views(p.0@),
                p.1 as int,
            )) && p.1 <= v@.len(),
            None => parse_entries_rest(v@, i as int, fuel as nat) is None,
        },
    decreases fuel,
{
    let b = skip_ws_exec(v, i);
    if b < v.len() && v[b] == '}' {
        let empty: Vec<(String, FileMeta)> = Vec::new();
        proof {
            assert(crate::snapshot::entry_views(empty@) =~= Seq::<(Seq<char>, MetaView)>::empty());
        }
        return Some((empty, b + 1));
    }
    if b < v.len() && v[b] == ',' && fuel > 0 {
        let c = skip_ws_exec(v, b + 1);
        let (e, j) = match parse_entry_exec(v, c) {
            Some(p) => p,
            None => {
                return None;
            },
        };
        match parse_entries_rest_exec(v, j, fuel - 1) {
            Some((es, j2)) => {
                let ghost tail = es@;
                let mut es = es;
                let ghost ev = (e.0@, e.1@);
                es.insert(0, e);
                proof {
                    assert(crate::snapshot::entry_views(es@) =~= seq![ev]
                        + crate::snapshot::entry_views(tail));
                }
                Some((es, j2))
            },
            None => None,
        }
    } else {
        None
    }
}

/// Parse a snapshot text. `None` is the parse error: nothing is said of
/// the store's content then, and a run aborts before classifying anything.
pub fn load_snapshot(text: &Vec<char>) -> (r: Option<SnapshotMap>)
    ensures
        match r {
            Some(m) => m.wf() && parse_snapshot(text@) is Some && m@ == assoc_map(
                parse_snapshot(text@).unwrap(),
            ),
            None => parse_snapshot(text@) is None,
        },
{
    let v = text;
    let i0 = skip_ws_exec(v, 0);
    if !(i0 < v.len() && v[i0] == '{') {
        return None;
    }
    let i1 = skip_ws_exec(v, i0 + 1);
    let entries: Vec<(String, FileMeta)>;
    if i1 < v.len() && v[i1] == '}' {
        if skip_ws_exec(v, i1 + 1) == v.len() {
            entries = Vec::new();
            proof {
                assert(crate::snapshot::entry_views(entries@) =~= Seq::<(
                    Seq<char>,
                    MetaView,
                )>::empty());
            }
        } else {
            return None;
        }
    } else {
        let (e, j) = match parse_entry_exec(v, i1) {
            Some(p) => p,
            None => {
                return None;
            },
        };
        match parse_entries_rest_exec(v, j, v.len()) {
            Some((es, j2)) => {
                if skip_ws_exec(v, j2) == v.len() {
                    let ghost tail = es@;
                    let mut es = es;
                    let ghost ev = (e.0@, e.1@);
                    es.insert(0, e);
                    proof {
                        assert(crate::snapshot::entry_views(es@) =~= seq![ev]
                            + crate::snapshot::entry_views(tail));
                    }
                    entries = es;
                } else {
                    return None;
                }
            },
            None => {
                return None;
            },
        }
    }
    let ghost parsed = parse_snapshot(text@).unwrap();
    proof {
        assert(crate::snapshot::entry_views(entries@) == parsed);
    }
    let n = entries.len();
    let mut m = SnapshotMap::new();
    let mut i: usize = 0;
    while i < n
        invariant
            n == entries@.len(),
            crate::snapshot::entry_views(entries@) == parsed,
            i <= n,
            m.wf(),
            m@ == assoc_map(parsed.take(i as int)),
        decreases n - i,
    {
        proof {
            assert(parsed.take(i + 1).drop_last() =~= parsed.take(i as int));
            assert(parsed.take(i + 1).last() == parsed[i as int]);
        }
        m.insert(entries[i].0.clone(), entries[i].1.clone());
        i += 1;
    }
    proof {
        assert(parsed.take(n as int) =~= parsed);
    }
    Some(m)
}

/// Parse a snapshot straight from a string.
pub fn load_snapshot_str(text: &str) -> (r: Option<SnapshotMap>)
    ensures
        match r {
            Some(m) => m.wf() && parse_snapshot(text@) is Some && m@ == assoc_map(
                parse_snapshot(text@).unwrap(),
            ),
            None => parse_snapshot(text@) is None,
        },
{
    let v = chars_of(text);
    load_snapshot(&v)
}

} // verus!
