use vstd::prelude::*;

use crate::compiler::CompilerError;
use crate::text::{
    all_digits, chars_of, decimal, digits_value, parse_decimal, push_chars, push_decimal,
    same_chars, string_of, I32_MAX,
};

verus! {

/// The character that opens and closes a symbolic address in generated code.
pub const MARK: char = '~';

/// Each distinct symbol takes one word of memory.
pub const WORD: u128 = 4;

/// The largest byte offset a symbolic address may carry.
pub const MAX_OFFSET: u64 = I32_MAX;

/// The text split at every `MARK`; the result always holds at least one piece.
pub open spec fn split_on_mark(s: Seq<char>) -> Seq<Seq<char>>
    decreases s.len(),
{
    if s.len() == 0 {
        seq![Seq::empty()]
    } else {
        let p = split_on_mark(s.drop_last());
        if s.last() == MARK {
            p.push(Seq::empty())
        } else {
            p.update(p.len() - 1, p.last().push(s.last()))
        }
    }
}

/// The pieces of the text between marks, without a trailing empty piece.
/// Pieces at odd positions are symbol bodies, the others plain code.
pub open spec fn segments(s: Seq<char>) -> Seq<Seq<char>> {
    let p = split_on_mark(s);
    if p.last().len() == 0 {
        p.drop_last()
    } else {
        p
    }
}

/// Position of the first `+` in `s`, or its length when there is none.
pub open spec fn first_plus(s: Seq<char>) -> nat
    decreases s.len(),
{
    if s.len() == 0 {
        0
    } else if s[0] == '+' {
        0
    } else {
        1 + first_plus(s.drop_first())
    }
}

/// The symbol name of a body `name` or `name+offset`.
pub open spec fn symbol_name(body: Seq<char>) -> Seq<char> {
    body.subrange(0, first_plus(body) as int)
}

/// The byte offset of a body: 0 without `+`, otherwise the decimal number after
/// the first `+`; `None` when that text is not a number up to `MAX_OFFSET`.
pub open spec fn symbol_offset(body: Seq<char>) -> Option<nat> {
    let k = first_plus(body);
    if k == body.len() {
        Some(0)
    } else {
        let t = body.subrange(k as int + 1, body.len() as int);
        if t.len() > 0 && all_digits(t) && digits_value(t) <= MAX_OFFSET {
            Some(digits_value(t))
        } else {
            None
        }
    }
}

/// Position of the first occurrence of `n` in `s`, or its length when absent.
pub open spec fn position(s: Seq<Seq<char>>, n: Seq<char>) -> nat
    decreases s.len(),
{
    if s.len() == 0 {
        0
    } else if s[0] == n {
        0
    } else {
        1 + position(s.drop_first(), n)
    }
}

/// The distinct symbol names of the pieces, in the order first met.
pub open spec fn names_seen(segs: Seq<Seq<char>>) -> Seq<Seq<char>>
    decreases segs.len(),
{
    if segs.len() == 0 {
        Seq::empty()
    } else {
        let prev = names_seen(segs.drop_last());
        let n = symbol_name(segs.last());
        if (segs.len() - 1) % 2 == 1 && !prev.contains(n) {
            prev.push(n)
        } else {
            prev
        }
    }
}

/// The address of a symbol: one word for each distinct name met before it.
pub open spec fn symbol_address(segs: Seq<Seq<char>>, n: Seq<char>) -> nat {
    WORD as nat * position(names_seen(segs), n)
}

/// What the last piece becomes: plain code is kept, a symbol body becomes the
/// address of its name plus its offset, in decimal.
pub open spec fn resolved_piece(segs: Seq<Seq<char>>) -> Option<Seq<char>>
    recommends
        segs.len() > 0,
{
    let body = segs.last();
    if (segs.len() - 1) % 2 == 0 {
        Some(body)
    } else {
        match symbol_offset(body) {
            Some(off) => Some(decimal(symbol_address(segs, symbol_name(body)) + off)),
            None => None,
        }
    }
}

/// All pieces resolved and joined; `None` when some offset is malformed.
pub open spec fn resolve_pieces(segs: Seq<Seq<char>>) -> Option<Seq<char>>
    decreases segs.len(),
{
    if segs.len() == 0 {
        Some(Seq::empty())
    } else {
        match (resolve_pieces(segs.drop_last()), resolved_piece(segs)) {
            (Some(a), Some(b)) => Some(a + b),
            _ => None,
        }
    }
}

/// The relocated text.
pub open spec fn relocated(s: Seq<char>) -> Option<Seq<char>> {
    resolve_pieces(segments(s))
}

/// The position of a name already present does not change when a name is added.
pub proof fn lemma_position_push(s: Seq<Seq<char>>, m: Seq<char>, n: Seq<char>)
    requires
        s.contains(n),
    ensures
        position(s.push(m), n) == position(s, n),
        position(s, n) < s.len(),
    decreases s.len(),
{
    if s[0] != n {
        let i = choose|i: int| 0 <= i < s.len() && s[i] == n;
        assert(s.drop_first()[i - 1] == n);
        assert(s.push(m).drop_first() =~= s.drop_first().push(m));
        lemma_position_push(s.drop_first(), m, n);
    }
}

/// The position of the last element of a sequence that held it nowhere before.
pub proof fn lemma_position_new(s: Seq<Seq<char>>, n: Seq<char>)
    requires
        !s.contains(n),
    ensures
        position(s.push(n), n) == s.len(),
    decreases s.len(),
{
    if s.len() > 0 {
        assert(!s.drop_first().contains(n)) by {
            if s.drop_first().contains(n) {
                let i = choose|i: int| 0 <= i < s.drop_first().len() && s.drop_first()[i] == n;
                assert(s[i + 1] == n);
            }
        }
        assert(s.push(n).drop_first() =~= s.drop_first().push(n));
        lemma_position_new(s.drop_first(), n);
    }
}

/// Names seen in a prefix are a prefix of those seen in the whole.
pub proof fn lemma_names_prefix(segs: Seq<Seq<char>>, j: int)
    requires
        0 <= j <= segs.len(),
    ensures
        names_seen(segs.subrange(0, j)).len() <= names_seen(segs).len(),
        names_seen(segs.subrange(0, j)) =~= names_seen(segs).subrange(
            0,
            names_seen(segs.subrange(0, j)).len() as int,
        ),
    decreases segs.len() - j,
{
    if j < segs.len() {
        let p = segs.subrange(0, j + 1);
        assert(p.drop_last() =~= segs.subrange(0, j));
        lemma_names_prefix(segs, j + 1);
    } else {
        assert(segs.subrange(0, j) =~= segs);
    }
}

/// The name and the offset of a symbol body.
fn split_symbol(body: &Vec<char>) -> (r: (Vec<char>, Option<u64>))
    ensures
        r.0@ == symbol_name(body@),
        match symbol_offset(body@) {
            Some(off) => r.1 == Some(off as u64),
            None => r.1 is None,
        },
{
    let mut name: Vec<char> = Vec::new();
    let mut i: usize = 0;
    assert(body@.subrange(0, body.len() as int) =~= body@);
    while i < body.len() && body[i] != '+'
        invariant
            i <= body.len(),
            name@ == body@.subrange(0, i as int),
            first_plus(body@) == i + first_plus(body@.subrange(i as int, body.len() as int)),
        decreases body.len() - i,
    {
        assert(body@.subrange(i as int, body.len() as int).drop_first()
            =~= body@.subrange(i + 1, body.len() as int));
        name.push(body[i]);
        i = i + 1;
        assert(name@ =~= body@.subrange(0, i as int));
    }
    if i == body.len() {
        assert(first_plus(body@) == i);
        (name, Some(0))
    } else {
        assert(first_plus(body@) == i);
        let off = parse_decimal(body, i + 1);
        (name, off)
    }
}

/// The index of `n` in `table`, or `None` when it is absent.
fn find_name(table: &Vec<Vec<char>>, n: &Vec<char>) -> (r: Option<usize>)
    ensures
        ({
            let s = Seq::new(table@.len(), |k: int| table@[k]@);
            match r {
                Some(k) => k < table.len() && s.contains(n@) && k == position(s, n@),
                None => !s.contains(n@),
            }
        }),
{
    let ghost s = Seq::new(table@.len(), |k: int| table@[k]@);
    let mut i: usize = 0;
    assert(s.subrange(0, s.len() as int) =~= s);
    while i < table.len()
        invariant
            i <= table.len(),
            s == Seq::new(table@.len(), |k: int| table@[k]@),
            forall|j: int| 0 <= j < i ==> s[j] != n@,
            position(s, n@) == i + position(s.subrange(i as int, s.len() as int), n@),
        decreases table.len() - i,
    {
        assert(s.subrange(i as int, s.len() as int).drop_first()
            =~= s.subrange(i + 1, s.len() as int));
        if same_chars(&table[i], n) {
            assert(s[i as int] == n@);
            return Some(i);
        }
        i = i + 1;
    }
    assert(!s.contains(n@));
    None
}

/// The character sequences held by a vector of character vectors.
pub open spec fn views_of(t: Seq<Vec<char>>) -> Seq<Seq<char>> {
    Seq::new(t.len(), |k: int| t[k]@)
}

/// A piece that cannot be resolved leaves the whole text unresolved.
proof fn lemma_resolve_prefix_none(segs: Seq<Seq<char>>, k: int)
    requires
        0 <= k <= segs.len(),
        resolve_pieces(segs.subrange(0, k)) is None,
    ensures
        resolve_pieces(segs) is None,
    decreases segs.len() - k,
{
    if k < segs.len() {
        assert(segs.subrange(0, k + 1).drop_last() =~= segs.subrange(0, k));
        lemma_resolve_prefix_none(segs, k + 1);
    } else {
        assert(segs.subrange(0, k) =~= segs);
    }
}

/// The pieces of the text between marks.
fn split_segments(chars: &Vec<char>) -> (r: Vec<Vec<char>>)
    ensures
        views_of(r@) == segments(chars@),
{
    let mut done: Vec<Vec<char>> = Vec::new();
    let mut cur: Vec<char> = Vec::new();
    let mut i: usize = 0;
    assert(chars@.subrange(0, 0) =~= Seq::<char>::empty());
    assert(views_of(done@).push(cur@) =~= seq![Seq::<char>::empty()]);
    while i < chars.len()
        invariant
            i <= chars.len(),
            split_on_mark(chars@.subrange(0, i as int)) == views_of(done@).push(cur@),
        decreases chars.len() - i,
    {
        let c = chars[i];
        let ghost before = views_of(done@).push(cur@);
        assert(chars@.subrange(0, i + 1).drop_last() =~= chars@.subrange(0, i as int));
        if c == MARK {
            done.push(cur);
            cur = Vec::new();
            assert(views_of(done@).push(cur@) =~= before.push(Seq::empty()));
        } else {
            cur.push(c);
            assert(views_of(done@).push(cur@) =~= before.update(
                before.len() - 1,
                before.last().push(c),
            ));
        }
        i = i + 1;
    }
    assert(chars@.subrange(0, chars.len() as int) =~= chars@);
    if cur.len() > 0 {
        let ghost before = views_of(done@).push(cur@);
        done.push(cur);
        assert(views_of(done@) =~= before);
    } else {
        assert(views_of(done@) =~= views_of(done@).push(cur@).drop_last());
    }
    done
}

/// Appends what the last piece of `segs` resolves to, recording its name when new.
fn resolve_last(
    out: &mut Vec<char>,
    table: &mut Vec<Vec<char>>,
    body: &Vec<char>,
    Ghost(segs): Ghost<Seq<Seq<char>>>,
    odd: bool,
) -> (ok: bool)
    requires
        segs.len() > 0,
        segs.last() == body@,
        odd == ((segs.len() - 1) % 2 == 1),
        views_of(old(table)@) == names_seen(segs.drop_last()),
    ensures
        ok == (resolved_piece(segs) is Some),
        ok ==> final(out)@ == old(out)@ + resolved_piece(segs)->0,
        ok ==> views_of(final(table)@) == names_seen(segs),
{
    let ghost prev = names_seen(segs.drop_last());
    if !odd {
        push_chars(out, body);
        return true;
    }
    let (name, off) = split_symbol(body);
    let o = match off {
        Some(o) => o,
        None => {
            return false;
        },
    };
    let k: usize = match find_name(table, &name) {
        Some(k) => {
            proof {
                lemma_position_push(prev, name@, name@);
            }
            k
        },
        None => {
            let ghost n = name@;
            table.push(name);
            proof {
                lemma_position_new(prev, n);
                assert(views_of(table@) =~= prev.push(n));
            }
            table.len() - 1
        },
    };
    let addr: u128 = WORD * (k as u128) + (o as u128);
    push_decimal(out, addr);
    true
}

/// Replaces every symbolic address `~name~` or `~name+offset~` in generated code
/// with a number. Distinct names get addresses 0, 4, 8, ... in the order first met;
/// each occurrence resolves to its name's address plus its own offset. Fails only
/// when an offset is not a decimal number up to `MAX_OFFSET`.
pub fn fill_in(input: String) -> (r: Result<String, CompilerError>)
    ensures
        match r {
            Ok(t) => relocated(input@) == Some(t@),
            Err(_) => relocated(input@) is None,
        },
{
    let chars = chars_of(input.as_str());
    let segs = split_segments(&chars);
    let ghost ss = views_of(segs@);
    let mut out: Vec<char> = Vec::new();
    let mut table: Vec<Vec<char>> = Vec::new();
    let mut j: usize = 0;
    assert(ss.subrange(0, 0) =~= Seq::<Seq<char>>::empty());
    assert(views_of(table@) =~= Seq::<Seq<char>>::empty());
    while j < segs.len()
        invariant
            j <= segs.len(),
            ss == views_of(segs@),
            ss == segments(input@),
            resolve_pieces(ss.subrange(0, j as int)) == Some(out@),
            views_of(table@) == names_seen(ss.subrange(0, j as int)),
        decreases segs.len() - j,
    {
        let ghost pre = ss.subrange(0, j + 1);
        assert(pre.drop_last() =~= ss.subrange(0, j as int));
        let ok = resolve_last(&mut out, &mut table, &segs[j], Ghost(pre), j % 2 == 1);
        if !ok {
            proof {
                lemma_resolve_prefix_none(ss, j + 1);
            }
            return Err(CompilerError { msg: "malformed symbol offset".to_string(), line: 0 });
        }
        j = j + 1;
    }
    assert(ss.subrange(0, j as int) =~= ss);
    Ok(string_of(&out))
}

/// Piece `i` is a symbol body naming `n`.
pub open spec fn names_at(segs: Seq<Seq<char>>, i: int, n: Seq<char>) -> bool {
    0 <= i < segs.len() && i % 2 == 1 && symbol_name(segs[i]) == n
}

/// Name `a` is met at some piece before every piece that names `b`.
pub open spec fn met_before(segs: Seq<Seq<char>>, a: Seq<char>, b: Seq<char>) -> bool {
    exists|i: int|
        #[trigger] names_at(segs, i, a) && forall|i2: int|
            #[trigger] names_at(segs, i2, b) ==> i < i2
}

/// The number that the symbol body at odd position `j` resolves to, where its
/// offset is well formed.
pub open spec fn placeholder_number(segs: Seq<Seq<char>>, j: int) -> nat {
    symbol_address(segs.subrange(0, j + 1), symbol_name(segs[j])) + symbol_offset(segs[j])->0
}

/// The first position of an element that occurs in a sequence without duplicates.
proof fn lemma_position_distinct(s: Seq<Seq<char>>, k: int)
    requires
        s.no_duplicates(),
        0 <= k < s.len(),
    ensures
        position(s, s[k]) == k,
    decreases s.len(),
{
    if k > 0 {
        assert(s[0] != s[k]);
        assert(s.drop_first()[k - 1] == s[k]);
        assert(s.drop_first().no_duplicates()) by {
            assert forall|a: int, b: int|
                0 <= a < s.drop_first().len() && 0 <= b < s.drop_first().len() && a != b
                implies s.drop_first()[a] != s.drop_first()[b] by {
                assert(s[a + 1] != s[b + 1]);
            }
        }
        lemma_position_distinct(s.drop_first(), k - 1);
    }
}

/// The position of an element in a sequence and in a prefix that holds it agree.
proof fn lemma_position_prefix(s: Seq<Seq<char>>, m: int, n: Seq<char>)
    requires
        0 <= m <= s.len(),
        s.subrange(0, m).contains(n),
    ensures
        position(s, n) == position(s.subrange(0, m), n),
    decreases s.len(),
{
    let p = s.subrange(0, m);
    if s[0] != n {
        let i = choose|i: int| 0 <= i < p.len() && p[i] == n;
        assert(p.drop_first() =~= s.drop_first().subrange(0, m - 1));
        assert(p.drop_first()[i - 1] == n);
        lemma_position_prefix(s.drop_first(), m - 1, n);
    }
}

/// The names seen are distinct, are exactly the names of the symbol bodies, and
/// stand in the order in which each is first met.
proof fn lemma_names_seen(segs: Seq<Seq<char>>)
    ensures
        names_seen(segs).no_duplicates(),
        forall|n: Seq<char>|
            names_seen(segs).contains(n) <==> exists|i: int| names_at(segs, i, n),
        forall|k1: int, k2: int|
            #![trigger names_seen(segs)[k1], names_seen(segs)[k2]]
            0 <= k1 < k2 < names_seen(segs).len() ==> met_before(
                segs,
                names_seen(segs)[k1],
                names_seen(segs)[k2],
            ),
    decreases segs.len(),
{
    if segs.len() > 0 {
        let pre = segs.drop_last();
        let last = segs.len() - 1;
        let prev = names_seen(pre);
        let names = names_seen(segs);
        let n = symbol_name(segs.last());
        lemma_names_seen(pre);
        assert(names == if last % 2 == 1 && !prev.contains(n) {
            prev.push(n)
        } else {
            prev
        });
        assert forall|i: int, m: Seq<char>| names_at(pre, i, m) implies names_at(segs, i, m) by {}
        assert forall|m: Seq<char>| names.contains(m) <==> exists|i: int| names_at(segs, i, m) by {
            if names.contains(m) {
                if prev.contains(m) {
                    assert(exists|i: int| names_at(pre, i, m));
                    let i = choose|i: int| names_at(pre, i, m);
                    assert(names_at(segs, i, m));
                } else {
                    let k = choose|k: int| 0 <= k < names.len() && names[k] == m;
                    if k < prev.len() {
                        assert(prev[k] == m);
                    }
                    assert(names_at(segs, last, m));
                }
            }
            if exists|i: int| names_at(segs, i, m) {
                let i = choose|i: int| names_at(segs, i, m);
                if i < last {
                    assert(names_at(pre, i, m));
                    assert(prev.contains(m));
                    let k = choose|k: int| 0 <= k < prev.len() && prev[k] == m;
                    assert(names[k] == m);
                } else {
                    if prev.contains(m) {
                        let k = choose|k: int| 0 <= k < prev.len() && prev[k] == m;
                        assert(names[k] == m);
                    } else {
                        assert(names[names.len() - 1] == m);
                    }
                }
            }
        }
        assert forall|k1: int, k2: int|
            #![trigger names[k1], names[k2]]
            0 <= k1 < k2 < names.len() implies met_before(segs, names[k1], names[k2]) by {
            assert(k1 < prev.len());
            assert(names[k1] == prev[k1]);
            if k2 < prev.len() {
                assert(names[k2] == prev[k2]);
                assert(met_before(pre, prev[k1], prev[k2]));
                let i = choose|i: int|
                    #[trigger] names_at(pre, i, prev[k1]) && forall|i2: int|
                        #[trigger] names_at(pre, i2, prev[k2]) ==> i < i2;
                assert(names_at(segs, i, names[k1]));
                assert forall|i2: int| #[trigger] names_at(segs, i2, names[k2]) implies i < i2 by {
                    if i2 < last {
                        assert(names_at(pre, i2, prev[k2]));
                    }
                }
            } else {
                assert(names[k2] == n);
                assert(!prev.contains(n));
                assert(prev.contains(prev[k1]));
                assert(exists|i: int| names_at(pre, i, prev[k1]));
                let i = choose|i: int| names_at(pre, i, prev[k1]);
                assert(names_at(segs, i, names[k1]));
                assert forall|i2: int| #[trigger] names_at(segs, i2, names[k2]) implies i < i2 by {
                    if i2 < last {
                        assert(names_at(pre, i2, n));
                    }
                }
            }
        }
        assert(names.no_duplicates()) by {
            if names != prev {
                assert forall|a: int, b: int| 0 <= a < names.len() && 0 <= b < names.len() && a != b
                    implies names[a] != names[b] by {
                    if a < prev.len() && b < prev.len() {
                        assert(names[a] == prev[a] && names[b] == prev[b]);
                    } else if a < prev.len() {
                        assert(names[a] == prev[a]);
                        assert(prev.contains(prev[a]));
                    } else {
                        assert(names[b] == prev[b]);
                        assert(prev.contains(prev[b]));
                    }
                }
            }
        }
    }
}

/// Distinct symbols are laid out one word apart in the order in which they are
/// first met: the first name gets address 0, the second 4, and so on, and each
/// name listed comes before the next at its first occurrence. Since `fill_in`
/// returns exactly `relocated` of its input, running it twice on one text gives
/// the same output.
pub proof fn law_first_encounter_layout(s: Seq<char>)
    ensures
        ({
            let segs = segments(s);
            let names = names_seen(segs);
            &&& names.no_duplicates()
            &&& forall|n: Seq<char>| names.contains(n) <==> exists|i: int| names_at(segs, i, n)
            &&& forall|k: int| 0 <= k < names.len() ==> symbol_address(segs, #[trigger] names[k])
                == WORD * k
            &&& forall|k1: int, k2: int|
                #![trigger names[k1], names[k2]]
                0 <= k1 < k2 < names.len() ==> met_before(segs, names[k1], names[k2])
        }),
{
    let segs = segments(s);
    lemma_names_seen(segs);
    assert forall|k: int| 0 <= k < names_seen(segs).len() implies symbol_address(
        segs,
        #[trigger] names_seen(segs)[k],
    ) == WORD * k by {
        lemma_position_distinct(names_seen(segs), k);
    }
}

/// Every occurrence of a symbol resolves to the address of its name in the whole
/// text plus its own offset; so two occurrences of one name resolve to numbers
/// whose difference is the difference of their offsets, whatever lies between.
pub proof fn law_offsets_consistent(s: Seq<char>, j1: int, j2: int)
    requires
        0 <= j1 < segments(s).len(),
        0 <= j2 < segments(s).len(),
        j1 % 2 == 1,
        j2 % 2 == 1,
        symbol_name(segments(s)[j1]) == symbol_name(segments(s)[j2]),
        symbol_offset(segments(s)[j1]) is Some,
        symbol_offset(segments(s)[j2]) is Some,
    ensures
        resolved_piece(segments(s).subrange(0, j1 + 1)) == Some(
            decimal(placeholder_number(segments(s), j1)),
        ),
        resolved_piece(segments(s).subrange(0, j2 + 1)) == Some(
            decimal(placeholder_number(segments(s), j2)),
        ),
        placeholder_number(segments(s), j1) == symbol_address(
            segments(s),
            symbol_name(segments(s)[j1]),
        ) + symbol_offset(segments(s)[j1])->0,
        placeholder_number(segments(s), j1) - placeholder_number(segments(s), j2)
            == symbol_offset(segments(s)[j1])->0 - symbol_offset(segments(s)[j2])->0,
{
    lemma_occurrence_address(segments(s), j1);
    lemma_occurrence_address(segments(s), j2);
}

/// The address an occurrence resolves against equals its name's address in the
/// whole sequence of pieces.
proof fn lemma_occurrence_address(segs: Seq<Seq<char>>, j: int)
    requires
        0 <= j < segs.len(),
        j % 2 == 1,
    ensures
        symbol_address(segs.subrange(0, j + 1), symbol_name(segs[j])) == symbol_address(
            segs,
            symbol_name(segs[j]),
        ),
{
    let p = segs.subrange(0, j + 1);
    let n = symbol_name(segs[j]);
    assert(p.drop_last() =~= segs.subrange(0, j));
    assert(p.last() == segs[j]);
    let pn = names_seen(p);
    assert(pn.contains(n)) by {
        if !names_seen(p.drop_last()).contains(n) {
            assert(pn[pn.len() - 1] == n);
        } else {
            let k = choose|k: int| 0 <= k < names_seen(p.drop_last()).len() && names_seen(p.drop_last())[k] == n;
            assert(pn[k] == n);
        }
    }
    lemma_names_prefix(segs, j + 1);
    let full = names_seen(segs);
    assert(full.subrange(0, pn.len() as int) == pn);
    lemma_position_prefix(full, pn.len() as int, n);
}

/// A text without the mark.
pub open spec fn unmarked(s: Seq<char>) -> bool {
    forall|i: int| 0 <= i < s.len() ==> #[trigger] s[i] != MARK
}

proof fn lemma_split_unmarked(s: Seq<char>)
    ensures
        split_on_mark(s).len() > 0,
        forall|i: int| 0 <= i < split_on_mark(s).len() ==> unmarked(#[trigger] split_on_mark(s)[i]),
    decreases s.len(),
{
    if s.len() > 0 {
        lemma_split_unmarked(s.drop_last());
        let p = split_on_mark(s.drop_last());
        if s.last() != MARK {
            let q = p.update(p.len() - 1, p.last().push(s.last()));
            assert forall|i: int| 0 <= i < q.len() implies unmarked(#[trigger] q[i]) by {
                if i == q.len() - 1 {
                    assert(unmarked(p[p.len() - 1]));
                    assert forall|j: int| 0 <= j < q[i].len() implies #[trigger] q[i][j] != MARK by {
                        if j < p.last().len() {
                            assert(q[i][j] == p.last()[j]);
                        }
                    }
                } else {
                    assert(q[i] == p[i]);
                }
            }
        } else {
            let q = p.push(Seq::empty());
            assert forall|i: int| 0 <= i < q.len() implies unmarked(#[trigger] q[i]) by {
                if i < p.len() {
                    assert(q[i] == p[i]);
                }
            }
        }
    }
}

proof fn lemma_decimal_unmarked(n: nat)
    ensures
        unmarked(decimal(n)),
    decreases n,
{
    if n >= 10 {
        lemma_decimal_unmarked(n / 10);
        let d = decimal(n);
        assert forall|i: int| 0 <= i < d.len() implies #[trigger] d[i] != MARK by {
            if i < d.len() - 1 {
                assert(d[i] == decimal(n / 10)[i]);
            }
        }
    }
}

proof fn lemma_pieces_unmarked(segs: Seq<Seq<char>>)
    requires
        forall|i: int| 0 <= i < segs.len() ==> unmarked(#[trigger] segs[i]),
    ensures
        resolve_pieces(segs) matches Some(o) ==> unmarked(o),
    decreases segs.len(),
{
    if segs.len() > 0 {
        let pre = segs.drop_last();
        assert forall|i: int| 0 <= i < pre.len() implies unmarked(#[trigger] pre[i]) by {
            assert(pre[i] == segs[i]);
        }
        lemma_pieces_unmarked(pre);
        assert(unmarked(segs[segs.len() - 1]));
        match resolved_piece(segs) {
            Some(b) => {
                if (segs.len() - 1) % 2 == 1 {
                    let body = segs.last();
                    lemma_decimal_unmarked(symbol_address(segs, symbol_name(body)) + symbol_offset(body)->0);
                }
                match resolve_pieces(pre) {
                    Some(a) => {
                        let o = a + b;
                        assert forall|i: int| 0 <= i < o.len() implies #[trigger] o[i] != MARK by {
                            if i < a.len() {
                                assert(o[i] == a[i]);
                            } else {
                                assert(o[i] == b[i - a.len()]);
                            }
                        }
                    },
                    None => {},
                }
            },
            None => {},
        }
    }
}

/// Relocation resolves every symbolic address: its output holds no mark.
pub proof fn law_relocated_unmarked(s: Seq<char>)
    ensures
        relocated(s) matches Some(o) ==> unmarked(o),
{
    lemma_split_unmarked(s);
    let p = split_on_mark(s);
    let segs = segments(s);
    assert forall|i: int| 0 <= i < segs.len() implies unmarked(#[trigger] segs[i]) by {
        assert(segs[i] == p[i]);
    }
    lemma_pieces_unmarked(segs);
}

proof fn lemma_pieces_some(segs: Seq<Seq<char>>)
    requires
        forall|i: int| 0 <= i < segs.len() && i % 2 == 1 ==> (#[trigger] symbol_offset(segs[i])) is Some,
    ensures
        resolve_pieces(segs) is Some,
    decreases segs.len(),
{
    if segs.len() > 0 {
        let pre = segs.drop_last();
        assert forall|i: int| 0 <= i < pre.len() && i % 2 == 1 implies (#[trigger] symbol_offset(pre[i])) is Some by {
            assert(pre[i] == segs[i]);
        }
        lemma_pieces_some(pre);
        if (segs.len() - 1) % 2 == 1 {
            assert(symbol_offset(segs[segs.len() - 1]) is Some);
        }
    }
}

proof fn lemma_no_plus(s: Seq<char>)
    requires
        !s.contains('+'),
    ensures
        first_plus(s) == s.len(),
    decreases s.len(),
{
    if s.len() > 0 {
        assert(s[0] != '+');
        assert(!s.drop_first().contains('+')) by {
            if s.drop_first().contains('+') {
                let k = choose|k: int| 0 <= k < s.drop_first().len() && s.drop_first()[k] == '+';
                assert(s[k + 1] == '+');
            }
        }
        lemma_no_plus(s.drop_first());
    }
}

/// Relocation succeeds on every text whose symbol offsets are well formed.
/// In particular, when no symbol carries an offset, it succeeds, and every
/// occurrence of a name resolves to four times the number of distinct names met
/// before that name's first occurrence.
pub proof fn law_relocation_succeeds(s: Seq<char>)
    ensures
        (forall|i: int| 0 <= i < segments(s).len() && i % 2 == 1
            ==> (#[trigger] symbol_offset(segments(s)[i])) is Some) ==> relocated(s) is Some,
        (forall|i: int| 0 <= i < segments(s).len() && i % 2 == 1
            ==> !(#[trigger] segments(s)[i]).contains('+')) ==> {
            &&& relocated(s) is Some
            &&& forall|j: int| 0 <= j < segments(s).len() && j % 2 == 1 ==> resolved_piece(
                #[trigger] segments(s).subrange(0, j + 1),
            ) == Some(decimal(symbol_address(segments(s), segments(s)[j])))
        },
{
    let segs = segments(s);
    if forall|i: int| 0 <= i < segs.len() && i % 2 == 1 ==> (#[trigger] symbol_offset(segs[i])) is Some {
        lemma_pieces_some(segs);
    }
    if forall|i: int| 0 <= i < segs.len() && i % 2 == 1 ==> !(#[trigger] segs[i]).contains('+') {
        assert forall|i: int| 0 <= i < segs.len() && i % 2 == 1 implies (#[trigger] symbol_offset(segs[i])) is Some by {
            assert(!segs[i].contains('+'));
            lemma_no_plus(segs[i]);
        }
        lemma_pieces_some(segs);
        assert forall|j: int| 0 <= j < segs.len() && j % 2 == 1 implies resolved_piece(
            #[trigger] segs.subrange(0, j + 1),
        ) == Some(decimal(symbol_address(segs, segs[j]))) by {
            assert(!segs[j].contains('+'));
            lemma_no_plus(segs[j]);
            assert(symbol_name(segs[j]) =~= segs[j]);
            law_offsets_consistent(s, j, j);
        }
    }
}

} // verus!
