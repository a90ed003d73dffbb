//! Wallet addresses: the canonical form, and the test for validity.

use crate::text::texts;
use vstd::prelude::*;
use vstd::string::*;

verus! {

/// Whether `s` begins with the chain's own address prefix, `ronin:`.
pub open spec fn has_chain_prefix(s: Seq<char>) -> bool {
    s.len() >= 6 && s[0] == 'r' && s[1] == 'o' && s[2] == 'n' && s[3] == 'i' && s[4] == 'n'
        && s[5] == ':'
}

/// `s` with every `ronin:` replaced by `0x`, reading from the left.
pub open spec fn normalized(s: Seq<char>) -> Seq<char>
    decreases s.len(),
{
    if s.len() == 0 {
        s
    } else if has_chain_prefix(s) {
        seq!['0', 'x'] + normalized(s.skip(6))
    } else {
        seq![s[0]] + normalized(s.skip(1))
    }
}

/// Where the canonical form of `t` begins with `k` characters other than
/// `0`, `t` begins with the same characters.
proof fn lemma_plain_start(t: Seq<char>, k: int)
    requires
        0 <= k <= normalized(t).len(),
        forall|j: int| 0 <= j < k ==> normalized(t)[j] != '0',
    ensures
        k <= t.len(),
        forall|j: int| 0 <= j < k ==> t[j] == normalized(t)[j],
    decreases k,
{
    if k > 0 {
        assert(t.len() > 0);
        assert(normalized(t)[0] != '0');
        assert(!has_chain_prefix(t));
        let rest = t.skip(1);
        assert(normalized(t) == seq![t[0]] + normalized(rest));
        assert forall|j: int| 0 <= j < k - 1 implies normalized(rest)[j] != '0' by {
            assert(normalized(t)[j + 1] == normalized(rest)[j]);
        }
        lemma_plain_start(rest, k - 1);
        assert forall|j: int| 0 <= j < k implies t[j] == normalized(t)[j] by {
            if j > 0 {
                assert(normalized(t)[j] == normalized(rest)[j - 1]);
                assert(rest[j - 1] == t[j]);
            }
        }
    }
}

/// Normalising is idempotent: the canonical form of a canonical form is
/// that form itself, for every text.
pub proof fn lemma_normalize_idempotent(s: Seq<char>)
    ensures
        normalized(normalized(s)) == normalized(s),
    decreases s.len(),
{
    if s.len() == 0 {
    } else if has_chain_prefix(s) {
        let u = normalized(s.skip(6));
        lemma_normalize_idempotent(s.skip(6));
        let r = seq!['0', 'x'] + u;
        assert(normalized(s) == r);
        assert(!has_chain_prefix(r));
        assert(normalized(r) == seq![r[0]] + normalized(r.skip(1)));
        assert(!has_chain_prefix(r.skip(1)));
        assert(normalized(r.skip(1)) == seq![r.skip(1)[0]] + normalized(r.skip(1).skip(1)));
        assert(r.skip(1).skip(1) =~= u);
        assert(normalized(r) =~= r);
    } else {
        let u = normalized(s.skip(1));
        lemma_normalize_idempotent(s.skip(1));
        let r = seq![s[0]] + u;
        assert(normalized(s) == r);
        if has_chain_prefix(r) {
            assert forall|j: int| 0 <= j < 5 implies u[j] != '0' by {
                assert(u[j] == r[j + 1]);
            }
            lemma_plain_start(s.skip(1), 5);
            assert forall|j: int| 1 <= j < 6 implies s[j] == r[j] by {
                assert(s.skip(1)[j - 1] == s[j]);
                assert(u[j - 1] == r[j]);
            }
            assert(has_chain_prefix(s));
        }
        assert(r.skip(1) =~= u);
        assert(normalized(r) == seq![r[0]] + normalized(r.skip(1)));
        assert(normalized(r) =~= r);
    }
}

/// Brings an address into the canonical hex form: the chain prefix
/// `ronin:` becomes `0x`, wherever it stands, and everything else stays.
/// The result is itself canonical: normalising it again changes nothing.
pub fn normalize_address(input: &str) -> (r: String)
    ensures
        r@ == normalized(input@),
        normalized(r@) == r@,
{
    let n = input.unicode_len();
    let mut out = String::new();
    let mut i: usize = 0;
    proof {
        assert(input@.skip(0) =~= input@);
        assert(out@ + normalized(input@) =~= normalized(input@));
    }
    while i < n
        invariant
            i <= n,
            n == input@.len(),
            out@ + normalized(input@.skip(i as int)) == normalized(input@),
        decreases n - i,
    {
        let ghost rest = input@.skip(i as int);
        let ghost before = out@;
        if n - i >= 6 && input.get_char(i) == 'r' && input.get_char(i + 1) == 'o' && input.get_char(
            i + 2,
        ) == 'n' && input.get_char(i + 3) == 'i' && input.get_char(i + 4) == 'n' && input.get_char(
            i + 5,
        ) == ':' {
            proof {
                reveal_strlit("0x");
                assert("0x"@ =~= seq!['0', 'x']);
                assert(has_chain_prefix(rest));
                assert(rest.skip(6) =~= input@.skip(i + 6));
            }
            out.append("0x");
            i += 6;
            assert(out@ + normalized(input@.skip(i as int)) =~= before + normalized(rest));
        } else {
            proof {
                assert(!has_chain_prefix(rest));
                assert(rest.skip(1) =~= input@.skip(i + 1));
                assert(input@.subrange(i as int, i + 1) =~= seq![rest[0]]);
            }
            out.append(input.substring_char(i, i + 1));
            i += 1;
            assert(out@ + normalized(input@.skip(i as int)) =~= before + normalized(rest));
        }
    }
    proof {
        assert(input@.skip(n as int).len() == 0);
        assert(out@ + normalized(input@.skip(n as int)) =~= out@);
        lemma_normalize_idempotent(input@);
    }
    out
}

/// Whether `web3` reads `text` as an account address.
pub uninterp spec fn address_parses(text: Seq<char>) -> bool;

/// Asks `web3` to parse `text` as a `web3::types::Address`. Trusted: the
/// answer is the named one, which depends on the text alone.
#[verifier::external_body]
pub(crate) fn parses_as_address(text: &str) -> (r: bool)
    ensures
        r == address_parses(text@),
{
    text.parse::<web3::types::Address>().is_ok()
}

/// The canonical form of `raw`, if it is an address.
pub open spec fn validated(raw: Seq<char>) -> Option<Seq<char>> {
    if address_parses(normalized(raw)) {
        Some(normalized(raw))
    } else {
        None
    }
}

/// Normalises `raw` and accepts it where the result is an address.
pub fn validate_address(raw: &str) -> (r: Option<String>)
    ensures
        match r {
            Some(a) => validated(raw@) == Some(a@),
            None => validated(raw@).is_none(),
        },
{
    let canonical = normalize_address(raw);
    if parses_as_address(canonical.as_str()) {
        Some(canonical)
    } else {
        None
    }
}

/// The lines of `s`: what stands between its line feeds.
pub open spec fn lines_of(s: Seq<char>) -> Seq<Seq<char>>
    decreases s.len(),
{
    if s.len() == 0 {
        seq![Seq::<char>::empty()]
    } else if s.last() == '\n' {
        lines_of(s.drop_last()).push(Seq::<char>::empty())
    } else {
        lines_of(s.drop_last()).drop_last().push(lines_of(s.drop_last()).last().push(s.last()))
    }
}

/// The canonical forms of those of `lines` that are addresses, in order.
pub open spec fn accepted_of(lines: Seq<Seq<char>>) -> Seq<Seq<char>>
    decreases lines.len(),
{
    if lines.len() == 0 {
        Seq::empty()
    } else {
        match validated(lines.last()) {
            Some(a) => accepted_of(lines.drop_last()).push(a),
            None => accepted_of(lines.drop_last()),
        }
    }
}

/// Those of `lines` that are no addresses, in order and as they stand.
pub open spec fn skipped_of(lines: Seq<Seq<char>>) -> Seq<Seq<char>>
    decreases lines.len(),
{
    if lines.len() == 0 {
        Seq::empty()
    } else {
        match validated(lines.last()) {
            Some(_) => skipped_of(lines.drop_last()),
            None => skipped_of(lines.drop_last()).push(lines.last()),
        }
    }
}

/// Splits a text at its line feeds.
pub fn split_lines(content: &str) -> (r: Vec<String>)
    ensures
        texts(r@) == lines_of(content@),
{
    let n = content.unicode_len();
    let mut lines: Vec<String> = Vec::new();
    let mut current = String::new();
    let mut i: usize = 0;
    proof {
        assert(content@.take(0) =~= Seq::<char>::empty());
        assert(texts(lines@).push(current@) =~= lines_of(content@.take(0)));
    }
    while i < n
        invariant
            i <= n,
            n == content@.len(),
            texts(lines@).push(current@) == lines_of(content@.take(i as int)),
        decreases n - i,
    {
        let ghost before = texts(lines@);
        let ghost cur = current@;
        proof {
            assert(content@.take(i + 1).drop_last() =~= content@.take(i as int));
            assert(content@.take(i + 1).last() == content@[i as int]);
            assert(content@.subrange(i as int, i + 1) =~= seq![content@[i as int]]);
            assert(before.push(cur).drop_last() =~= before);
            assert(before.push(cur).last() == cur);
        }
        if content.get_char(i) == '\n' {
            lines.push(current);
            current = String::new();
            assert(texts(lines@) =~= before.push(cur));
        } else {
            current.append(content.substring_char(i, i + 1));
            assert(current@ =~= cur.push(content@[i as int]));
        }
        i += 1;
    }
    proof {
        assert(content@.take(n as int) =~= content@);
    }
    let ghost before = texts(lines@);
    lines.push(current);
    assert(texts(lines@) =~= before.push(current@));
    lines
}

/// The addresses of a source file, and the lines that were passed over.
#[derive(Debug)]
pub struct AddressSelection {
    pub accepted: Vec<String>,
    pub skipped: Vec<String>,
}

/// Sorts the lines of a source file. Each line is normalised; those that
/// are addresses are accepted in canonical form, the others are set aside
/// as they stand.
pub fn select_from_lines(lines: &Vec<String>) -> (r: AddressSelection)
    ensures
        texts(r.accepted@) == accepted_of(texts(lines@)),
        texts(r.skipped@) == skipped_of(texts(lines@)),
{
    let mut accepted: Vec<String> = Vec::new();
    let mut skipped: Vec<String> = Vec::new();
    let mut i: usize = 0;
    let ghost all = texts(lines@);
    proof {
        assert(all.take(0) =~= Seq::<Seq<char>>::empty());
        assert(texts(accepted@) =~= accepted_of(all.take(0)));
        assert(texts(skipped@) =~= skipped_of(all.take(0)));
    }
    while i < lines.len()
        invariant
            i <= lines.len(),
            all == texts(lines@),
            texts(accepted@) == accepted_of(all.take(i as int)),
            texts(skipped@) == skipped_of(all.take(i as int)),
        decreases lines.len() - i,
    {
        let ghost acc = texts(accepted@);
        let ghost skp = texts(skipped@);
        proof {
            assert(all.take(i + 1).drop_last() =~= all.take(i as int));
            assert(all.take(i + 1).last() == lines@[i as int]@);
        }
        match validate_address(lines[i].as_str()) {
            Some(a) => {
                accepted.push(a);
                assert(texts(accepted@) =~= acc.push(a@));
            },
            None => {
                let line = String::from_str(lines[i].as_str());
                skipped.push(line);
                assert(texts(skipped@) =~= skp.push(line@));
            },
        }
        i += 1;
    }
    proof {
        assert(all.take(i as int) =~= all);
    }
    AddressSelection { accepted, skipped }
}

/// Reads the addresses from the content of a source file, one per line,
/// where lines end with a line feed.
pub fn select_addresses(content: &str) -> (r: AddressSelection)
    ensures
        texts(r.accepted@) == accepted_of(lines_of(content@)),
        texts(r.skipped@) == skipped_of(lines_of(content@)),
{
    let lines = split_lines(content);
    select_from_lines(&lines)
}

} // verus!
