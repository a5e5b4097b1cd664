//! Round trip of the snapshot format: the text the writer emits parses
//! back to exactly the entries it was given, so loading and then saving a
//! snapshot preserves its content.

use vstd::prelude::*;

use crate::codec::{dchar, dval, esc_char, is_digit, is_ws, lit_hash, lit_modified, lit_size,
    parse_chars, parse_digits, parse_entries_rest, parse_entry, parse_i64, parse_meta,
    parse_snapshot, parse_string, parse_u64, ser_chars, ser_entries, ser_entries_rest, ser_entry,
    ser_int, ser_meta, ser_nat, ser_snapshot, ser_string, skip_ws};
use crate::meta::MetaView;

verus! {

/// `x` stands letter for letter inside `s` from position `i` on.
pub open spec fn embeds(s: Seq<char>, i: int, x: Seq<char>) -> bool {
    0 <= i && i + x.len() <= s.len() && forall|t: int| 0 <= t < x.len() ==> s[i + t] == x[t]
}

proof fn lemma_embeds_concat(s: Seq<char>, i: int, x: Seq<char>, y: Seq<char>)
    requires
        embeds(s, i, x + y),
    ensures
        embeds(s, i, x),
        embeds(s, i + x.len(), y),
{
    assert forall|t: int| 0 <= t < x.len() implies s[i + t] == x[t] by {
        assert((x + y)[t] == x[t]);
    }
    assert forall|t: int| 0 <= t < y.len() implies s[i + x.len() + t] == y[t] by {
        assert((x + y)[x.len() + t] == y[t]);
    }
}

proof fn lemma_embeds_at(s: Seq<char>, i: int, x: Seq<char>, t: int)
    requires
        embeds(s, i, x),
        0 <= t < x.len(),
    ensures
        s[i + t] == x[t],
{
}

/// Escaping is the identity on text free of quotes and backslashes.
proof fn lemma_ser_chars_plain(k: Seq<char>)
    requires
        forall|t: int| 0 <= t < k.len() ==> k[t] != '"' && k[t] != '\\',
    ensures
        ser_chars(k) == k,
    decreases k.len(),
{
    if k.len() > 0 {
        lemma_ser_chars_plain(k.drop_first());
        assert(esc_char(k.first()) == seq![k.first()]);
        assert(ser_chars(k) =~= k);
    }
}

proof fn lemma_parse_chars_ser(s: Seq<char>, i: int, k: Seq<char>)
    requires
        embeds(s, i, ser_chars(k) + seq!['"']),
    ensures
        parse_chars(s, i) == Some((k, i + ser_chars(k).len() + 1)),
    decreases k.len(),
{
    lemma_embeds_concat(s, i, ser_chars(k), seq!['"']);
    if k.len() == 0 {
        lemma_embeds_at(s, i + ser_chars(k).len() as int, seq!['"'], 0);
        assert(s[i] == '"');
        assert(k =~= Seq::<char>::empty());
    } else {
        let c = k.first();
        let rest = k.drop_first();
        assert(ser_chars(k) == esc_char(c) + ser_chars(rest));
        assert((esc_char(c) + ser_chars(rest)) + seq!['"'] =~= esc_char(c) + (ser_chars(rest)
            + seq!['"']));
        lemma_embeds_concat(s, i, esc_char(c), ser_chars(rest) + seq!['"']);
        if c == '"' || c == '\\' {
            assert(esc_char(c) == seq!['\\', c]);
            lemma_embeds_at(s, i, esc_char(c), 0);
            lemma_embeds_at(s, i, esc_char(c), 1);
            assert(s[i] == '\\');
            assert(s[i + 1] == c);
            lemma_parse_chars_ser(s, i + 2, rest);
            assert(seq![c] + rest =~= k);
        } else {
            assert(esc_char(c) == seq![c]);
            lemma_embeds_at(s, i, esc_char(c), 0);
            assert(s[i] == c);
            lemma_parse_chars_ser(s, i + 1, rest);
            assert(seq![c] + rest =~= k);
        }
    }
}

proof fn lemma_parse_string_ser(s: Seq<char>, i: int, k: Seq<char>)
    requires
        embeds(s, i, ser_string(k)),
    ensures
        parse_string(s, i) == Some((k, i + ser_string(k).len())),
{
    assert(ser_string(k) =~= seq!['"'] + (ser_chars(k) + seq!['"']));
    lemma_embeds_concat(s, i, seq!['"'], ser_chars(k) + seq!['"']);
    lemma_embeds_at(s, i, seq!['"'], 0);
    assert(s[i] == '"');
    lemma_parse_chars_ser(s, i + 1, k);
}

/// The digits of a run folded into an accumulator, as the parser reads
/// them.
pub open spec fn acc_digits(acc: int, run: Seq<char>) -> int
    decreases run.len(),
{
    if run.len() == 0 {
        acc
    } else {
        acc_digits(acc * 10 + dval(run.first()), run.drop_first())
    }
}

proof fn lemma_acc_digits_grows(acc: int, run: Seq<char>)
    requires
        acc >= 0,
    ensures
        acc_digits(acc, run) >= acc,
    decreases run.len(),
{
    if run.len() > 0 {
        lemma_acc_digits_grows(acc * 10 + dval(run.first()), run.drop_first());
    }
}

proof fn lemma_acc_digits_push(acc: int, run: Seq<char>, c: char)
    ensures
        acc_digits(acc, run.push(c)) == acc_digits(acc, run) * 10 + dval(c),
    decreases run.len(),
{
    if run.len() == 0 {
        assert(run.push(c).len() == 1);
        assert(run.push(c).first() == c);
        assert(run.push(c).drop_first() =~= Seq::<char>::empty());
        assert(acc_digits(acc, run.push(c)) == acc_digits(
            acc * 10 + dval(c),
            run.push(c).drop_first(),
        ));
    } else {
        assert(run.push(c)[0] == run[0]);
        assert(run.push(c).first() == run.first());
        assert(run.push(c).drop_first() =~= run.drop_first().push(c));
        lemma_acc_digits_push(acc * 10 + dval(run.first()), run.drop_first(), c);
    }
}

proof fn lemma_ser_nat_digits(n: nat)
    ensures
        ser_nat(n).len() >= 1,
        forall|t: int| 0 <= t < ser_nat(n).len() ==> is_digit(#[trigger] ser_nat(n)[t]),
        acc_digits(0, ser_nat(n)) == n,
    decreases n,
{
    if n < 10 {
        assert(ser_nat(n) == seq![dchar(n)]);
        assert(is_digit(dchar(n)));
        assert(dval(dchar(n)) == n);
        assert(acc_digits(0, seq![dchar(n)]) == dval(dchar(n))) by {
            assert(seq![dchar(n)].first() == dchar(n));
            assert(seq![dchar(n)].drop_first() =~= Seq::<char>::empty());
            assert(acc_digits(0, seq![dchar(n)]) == acc_digits(
                0int * 10 + dval(dchar(n)),
                seq![dchar(n)].drop_first(),
            ));
        }
    } else {
        lemma_ser_nat_digits(n / 10);
        assert(ser_nat(n) == ser_nat(n / 10) + seq![dchar(n % 10)]);
        assert(ser_nat(n) =~= ser_nat(n / 10).push(dchar(n % 10)));
        lemma_acc_digits_push(0, ser_nat(n / 10), dchar(n % 10));
        assert(dval(dchar(n % 10)) == n % 10);
        assert((n / 10) * 10 + n % 10 == n) by {
            vstd::arithmetic::div_mod::lemma_fundamental_div_mod(n as int, 10);
        }
        assert(is_digit(dchar(n % 10)));
        assert forall|t: int| 0 <= t < ser_nat(n).len() implies is_digit(
            #[trigger] ser_nat(n)[t],
        ) by {
            if t < ser_nat(n / 10).len() {
                assert(ser_nat(n)[t] == ser_nat(n / 10)[t]);
            } else {
                assert(ser_nat(n)[t] == dchar(n % 10));
            }
        }
    }
}

proof fn lemma_parse_digits_run(s: Seq<char>, i: int, run: Seq<char>, acc: u64)
    requires
        embeds(s, i, run),
        forall|t: int| 0 <= t < run.len() ==> is_digit(#[trigger] run[t]),
        i + run.len() == s.len() || !is_digit(s[i + run.len()]),
        acc_digits(acc as int, run) <= u64::MAX,
    ensures
        parse_digits(s, i, acc) == Some((acc_digits(acc as int, run) as u64, i + run.len())),
    decreases run.len(),
{
    if run.len() == 0 {
    } else {
        let c = run.first();
        assert(s[i] == run[0]);
        assert(is_digit(s[i]));
        let acc2 = acc as int * 10 + dval(c);
        lemma_acc_digits_grows(acc2, run.drop_first());
        assert(acc_digits(acc as int, run) == acc_digits(acc2, run.drop_first()));
        assert(acc2 <= u64::MAX);
        assert forall|t: int| 0 <= t < run.drop_first().len() implies s[i + 1 + t]
            == run.drop_first()[t] && is_digit(#[trigger] run.drop_first()[t]) by {
            assert(run.drop_first()[t] == run[t + 1]);
            assert(s[i + 1 + t] == run[t + 1]);
        }
        lemma_parse_digits_run(s, i + 1, run.drop_first(), acc2 as u64);
    }
}

proof fn lemma_parse_u64_ser(s: Seq<char>, i: int, n: u64)
    requires
        embeds(s, i, ser_nat(n as nat)),
        i + ser_nat(n as nat).len() == s.len() || !is_digit(s[i + ser_nat(n as nat).len()]),
    ensures
        parse_u64(s, i) == Some((n, i + ser_nat(n as nat).len())),
{
    lemma_ser_nat_digits(n as nat);
    assert(s[i] == ser_nat(n as nat)[0]);
    lemma_parse_digits_run(s, i, ser_nat(n as nat), 0);
}

proof fn lemma_parse_i64_ser(s: Seq<char>, i: int, n: i64)
    requires
        embeds(s, i, ser_int(n as int)),
        i + ser_int(n as int).len() == s.len() || !is_digit(s[i + ser_int(n as int).len()]),
    ensures
        parse_i64(s, i) == Some((n, i + ser_int(n as int).len())),
{
    if n < 0 {
        let mag = (-(n as int)) as nat;
        assert(ser_int(n as int) == seq!['-'] + ser_nat(mag));
        lemma_embeds_concat(s, i, seq!['-'], ser_nat(mag));
        lemma_embeds_at(s, i, seq!['-'], 0);
        assert(s[i] == '-');
        lemma_ser_nat_digits(mag);
        lemma_parse_u64_ser(s, i + 1, mag as u64);
        assert(mag <= 9223372036854775808u64);
        assert((-(mag as int)) as i64 == n);
    } else {
        lemma_ser_nat_digits(n as nat);
        lemma_embeds_at(s, i, ser_nat(n as nat), 0);
        assert(s[i] == ser_nat(n as nat)[0]);
        assert(is_digit(s[i]));
        assert(s[i] != '-') by {
            assert(48 <= s[i] as u32 <= 57);
        }
        lemma_parse_u64_ser(s, i, n as u64);
        assert(!(n as u64 > i64::MAX as u64));
        assert((n as u64) as i64 == n);
    }
}

proof fn lemma_key_plain()
    ensures
        ser_string(seq!['h', 'a', 's', 'h']) == seq!['"', 'h', 'a', 's', 'h', '"'],
        ser_string(seq!['m', 'o', 'd', 'i', 'f', 'i', 'e', 'd']) == seq![
            '"', 'm', 'o', 'd', 'i', 'f', 'i', 'e', 'd', '"',
        ],
        ser_string(seq!['s', 'i', 'z', 'e']) == seq!['"', 's', 'i', 'z', 'e', '"'],
        lit_hash() == ser_string(seq!['h', 'a', 's', 'h']) + seq![':'],
        lit_modified() == ser_string(seq!['m', 'o', 'd', 'i', 'f', 'i', 'e', 'd']) + seq![':'],
        lit_size() == ser_string(seq!['s', 'i', 'z', 'e']) + seq![':'],
{
    lemma_ser_chars_plain(seq!['h', 'a', 's', 'h']);
    lemma_ser_chars_plain(seq!['m', 'o', 'd', 'i', 'f', 'i', 'e', 'd']);
    lemma_ser_chars_plain(seq!['s', 'i', 'z', 'e']);
    assert(ser_string(seq!['h', 'a', 's', 'h']) =~= seq!['"', 'h', 'a', 's', 'h', '"']);
    assert(ser_string(seq!['m', 'o', 'd', 'i', 'f', 'i', 'e', 'd']) =~= seq![
        '"', 'm', 'o', 'd', 'i', 'f', 'i', 'e', 'd', '"',
    ]);
    assert(ser_string(seq!['s', 'i', 'z', 'e']) =~= seq!['"', 's', 'i', 'z', 'e', '"']);
    assert(lit_hash() =~= ser_string(seq!['h', 'a', 's', 'h']) + seq![':']);
    assert(lit_modified() =~= ser_string(seq!['m', 'o', 'd', 'i', 'f', 'i', 'e', 'd']) + seq![
        ':'
    ]);
    assert(lit_size() =~= ser_string(seq!['s', 'i', 'z', 'e']) + seq![':']);
}

#[verifier::rlimit(100)]
proof fn lemma_parse_meta_ser(s: Seq<char>, i: int, m: MetaView)
    requires
        embeds(s, i, ser_meta(m)),
    ensures
        parse_meta(s, i) == Some((m, i + ser_meta(m).len())),
{
    lemma_key_plain();
    let khash = ser_string(seq!['h', 'a', 's', 'h']);
    let kmod = ser_string(seq!['m', 'o', 'd', 'i', 'f', 'i', 'e', 'd']);
    let ksize = ser_string(seq!['s', 'i', 'z', 'e']);
    let shash = ser_string(m.hash);
    let snmod = ser_nat(m.modified as nat);
    let snsize = ser_int(m.size as int);
    let p0 = seq!['{'];
    let r1 = seq![':'] + (shash + (seq![','] + (kmod + (seq![':'] + (snmod + (seq![','] + (ksize
        + (seq![':'] + (snsize + seq!['}'])))))))));
    let tail = khash + r1;
    assert(ser_meta(m) =~= p0 + tail);
    lemma_embeds_concat(s, i, p0, tail);
    lemma_embeds_at(s, i, p0, 0);
    assert(s[i] == '{');
    let i1 = i + 1;
    lemma_embeds_concat(s, i1, khash, r1);
    lemma_embeds_at(s, i1, khash, 0);
    assert(s[i1] == '"');
    assert(!is_ws(s[i1]));
    lemma_parse_string_ser(s, i1, seq!['h', 'a', 's', 'h']);
    let i2 = i1 + khash.len() as int;
    let r2 = shash + (seq![','] + (kmod + (seq![':'] + (snmod + (seq![','] + (ksize + (seq![':']
        + (snsize + seq!['}']))))))));
    lemma_embeds_concat(s, i2, seq![':'], r2);
    lemma_embeds_at(s, i2, seq![':'], 0);
    assert(s[i2] == ':');
    assert(!is_ws(s[i2]));
    let i3 = i2 + 1;
    let r3 = seq![','] + (kmod + (seq![':'] + (snmod + (seq![','] + (ksize + (seq![':'] + (snsize
        + seq!['}'])))))));
    lemma_embeds_concat(s, i3, shash, r3);
    lemma_embeds_at(s, i3, shash, 0);
    assert(shash[0] == '"');
    assert(s[i3] == '"');
    assert(!is_ws(s[i3]));
    lemma_parse_string_ser(s, i3, m.hash);
    let i4 = i3 + shash.len() as int;
    let r4 = kmod + (seq![':'] + (snmod + (seq![','] + (ksize + (seq![':'] + (snsize + seq![
        '}'
    ]))))));
    lemma_embeds_concat(s, i4, seq![','], r4);
    lemma_embeds_at(s, i4, seq![','], 0);
    assert(s[i4] == ',');
    assert(!is_ws(s[i4]));
    let i5 = i4 + 1;
    let r5 = seq![':'] + (snmod + (seq![','] + (ksize + (seq![':'] + (snsize + seq!['}'])))));
    lemma_embeds_concat(s, i5, kmod, r5);
    lemma_embeds_at(s, i5, kmod, 0);
    assert(s[i5] == '"');
    assert(!is_ws(s[i5]));
    lemma_parse_string_ser(s, i5, seq!['m', 'o', 'd', 'i', 'f', 'i', 'e', 'd']);
    let i6 = i5 + kmod.len() as int;
    let r6 = snmod + (seq![','] + (ksize + (seq![':'] + (snsize + seq!['}']))));
    lemma_embeds_concat(s, i6, seq![':'], r6);
    lemma_embeds_at(s, i6, seq![':'], 0);
    assert(s[i6] == ':');
    assert(!is_ws(s[i6]));
    let i7 = i6 + 1;
    let r7 = seq![','] + (ksize + (seq![':'] + (snsize + seq!['}'])));
    lemma_embeds_concat(s, i7, snmod, r7);
    lemma_ser_nat_digits(m.modified as nat);
    lemma_embeds_at(s, i7, snmod, 0);
    assert(is_digit(s[i7]));
    assert(!is_ws(s[i7]));
    let i8 = i7 + snmod.len() as int;
    lemma_embeds_concat(s, i8, seq![','], ksize + (seq![':'] + (snsize + seq!['}'])));
    lemma_embeds_at(s, i8, seq![','], 0);
    assert(s[i8] == ',');
    assert(!is_digit(',')) by {
        assert(',' as u32 == 44);
    }
    lemma_parse_u64_ser(s, i7, m.modified);
    assert(!is_ws(s[i8]));
    let i9 = i8 + 1;
    lemma_embeds_concat(s, i9, ksize, seq![':'] + (snsize + seq!['}']));
    lemma_embeds_at(s, i9, ksize, 0);
    assert(s[i9] == '"');
    assert(!is_ws(s[i9]));
    lemma_parse_string_ser(s, i9, seq!['s', 'i', 'z', 'e']);
    let i10 = i9 + ksize.len() as int;
    lemma_embeds_concat(s, i10, seq![':'], snsize + seq!['}']);
    lemma_embeds_at(s, i10, seq![':'], 0);
    assert(s[i10] == ':');
    assert(!is_ws(s[i10]));
    let i11 = i10 + 1;
    lemma_embeds_concat(s, i11, snsize, seq!['}']);
    let i12 = i11 + snsize.len() as int;
    lemma_embeds_at(s, i12, seq!['}'], 0);
    assert(s[i12] == '}');
    assert(!is_digit('}')) by {
        assert('}' as u32 == 125);
    }
    if m.size as int >= 0 {
        lemma_ser_nat_digits(m.size as nat);
        lemma_embeds_at(s, i11, snsize, 0);
        assert(is_digit(s[i11]));
        assert(!is_ws(s[i11]));
    } else {
        lemma_embeds_at(s, i11, snsize, 0);
        assert(snsize[0] == '-');
        assert(s[i11] == '-');
        assert(!is_ws(s[i11]));
    }
    lemma_parse_i64_ser(s, i11, m.size);
    assert(!is_ws(s[i12]));
    assert(i12 + 1 == i + ser_meta(m).len());
}

proof fn lemma_parse_entry_ser(s: Seq<char>, i: int, e: (Seq<char>, MetaView))
    requires
        embeds(s, i, ser_entry(e)),
    ensures
        parse_entry(s, i) == Some((e, i + ser_entry(e).len())),
{
    let sp = ser_string(e.0);
    let sm = ser_meta(e.1);
    assert(ser_entry(e) =~= sp + (seq![':'] + sm));
    lemma_embeds_concat(s, i, sp, seq![':'] + sm);
    lemma_parse_string_ser(s, i, e.0);
    let i1 = i + sp.len() as int;
    lemma_embeds_concat(s, i1, seq![':'], sm);
    lemma_embeds_at(s, i1, seq![':'], 0);
    assert(s[i1] == ':');
    assert(!is_ws(s[i1]));
    let i2 = i1 + 1;
    lemma_embeds_at(s, i2, sm, 0);
    assert(sm[0] == '{');
    assert(s[i2] == '{');
    assert(!is_ws(s[i2]));
    lemma_parse_meta_ser(s, i2, e.1);
}

proof fn lemma_ser_entries_rest_len(es: Seq<(Seq<char>, MetaView)>)
    ensures
        ser_entries_rest(es).len() >= es.len(),
    decreases es.len(),
{
    if es.len() > 0 {
        lemma_ser_entries_rest_len(es.drop_first());
    }
}

proof fn lemma_parse_entries_rest_ser(s: Seq<char>, i: int, es: Seq<(Seq<char>, MetaView)>, fuel: nat)
    requires
        embeds(s, i, ser_entries_rest(es) + seq!['}']),
        fuel >= es.len(),
    ensures
        parse_entries_rest(s, i, fuel) == Some((es, i + ser_entries_rest(es).len() + 1)),
    decreases es.len(),
{
    if es.len() == 0 {
        lemma_embeds_at(s, i, ser_entries_rest(es) + seq!['}'], 0);
        assert((ser_entries_rest(es) + seq!['}'])[0] == '}');
        assert(s[i] == '}');
        assert(!is_ws(s[i]));
        assert(es =~= Seq::<(Seq<char>, MetaView)>::empty());
    } else {
        let e = es.first();
        let rest = es.drop_first();
        assert(ser_entries_rest(es) == seq![','] + ser_entry(e) + ser_entries_rest(rest));
        assert((seq![','] + ser_entry(e) + ser_entries_rest(rest)) + seq!['}'] =~= seq![',']
            + (ser_entry(e) + (ser_entries_rest(rest) + seq!['}'])));
        lemma_embeds_concat(s, i, seq![','], ser_entry(e) + (ser_entries_rest(rest) + seq!['}']));
        lemma_embeds_at(s, i, seq![','], 0);
        assert(s[i] == ',');
        assert(!is_ws(s[i]));
        assert(s[i] != '}');
        let i1 = i + 1;
        lemma_embeds_concat(s, i1, ser_entry(e), ser_entries_rest(rest) + seq!['}']);
        lemma_embeds_at(s, i1, ser_entry(e), 0);
        assert(ser_entry(e)[0] == '"') by {
            assert(ser_entry(e) =~= ser_string(e.0) + (seq![':'] + ser_meta(e.1)));
        }
        assert(s[i1] == '"');
        assert(!is_ws(s[i1]));
        lemma_parse_entry_ser(s, i1, e);
        let i2 = i1 + ser_entry(e).len() as int;
        lemma_parse_entries_rest_ser(s, i2, rest, (fuel - 1) as nat);
        assert(seq![e] + rest =~= es);
    }
}

/// Round trip: the text the writer emits for an entry sequence parses back
/// to exactly that sequence.
#[verifier::rlimit(100)]
pub proof fn lemma_snapshot_round_trip(es: Seq<(Seq<char>, MetaView)>)
    ensures
        parse_snapshot(ser_snapshot(es)) == Some(es),
{
    let s = ser_snapshot(es);
    assert(s == seq!['{'] + ser_entries(es) + seq!['}']);
    assert(s =~= seq!['{'] + (ser_entries(es) + seq!['}']));
    assert(embeds(s, 0, seq!['{'] + (ser_entries(es) + seq!['}'])));
    lemma_embeds_concat(s, 0, seq!['{'], ser_entries(es) + seq!['}']);
    lemma_embeds_at(s, 0, seq!['{'], 0);
    assert(s[0] == '{');
    assert(!is_ws(s[0]));
    if es.len() == 0 {
        lemma_embeds_at(s, 1, ser_entries(es) + seq!['}'], 0);
        assert((ser_entries(es) + seq!['}'])[0] == '}');
        assert(s[1] == '}');
        assert(!is_ws(s[1]));
        assert(s.len() == 2);
        assert(skip_ws(s, 2) == 2);
        assert(es =~= Seq::<(Seq<char>, MetaView)>::empty());
    } else {
        let e = es.first();
        let rest = es.drop_first();
        assert(ser_entries(es) == ser_entry(e) + ser_entries_rest(rest));
        assert((ser_entry(e) + ser_entries_rest(rest)) + seq!['}'] =~= ser_entry(e)
            + (ser_entries_rest(rest) + seq!['}']));
        lemma_embeds_concat(s, 1, ser_entry(e), ser_entries_rest(rest) + seq!['}']);
        lemma_embeds_at(s, 1, ser_entry(e), 0);
        assert(ser_entry(e)[0] == '"') by {
            assert(ser_entry(e) =~= ser_string(e.0) + (seq![':'] + ser_meta(e.1)));
        }
        assert(s[1] == '"');
        assert(!is_ws(s[1]));
        assert(s[1] != '}');
        lemma_parse_entry_ser(s, 1, e);
        let i2: int = 1 + ser_entry(e).len() as int;
        lemma_ser_entries_rest_len(rest);
        assert(s.len() >= rest.len());
        lemma_parse_entries_rest_ser(s, i2, rest, s.len() as nat);
        let j2: int = i2 + ser_entries_rest(rest).len() as int + 1;
        assert(j2 == s.len());
        assert(skip_ws(s, j2) == j2);
        assert(seq![e] + rest =~= es);
    }
}

/// Loading a snapshot text and saving what was loaded reproduces a text
/// with the same content: it parses back to the same entries.
pub proof fn lemma_load_save_content(s: Seq<char>)
    requires
        parse_snapshot(s) is Some,
    ensures
        parse_snapshot(ser_snapshot(parse_snapshot(s).unwrap())) == Some(
            parse_snapshot(s).unwrap(),
        ),
{
    lemma_snapshot_round_trip(parse_snapshot(s).unwrap());
}

} // verus!
