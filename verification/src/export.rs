//! The persisted document format: the whole ledger as a pretty-printed
//! array of one-element arrays of strings, two-space indented, and the
//! proof that parsing the exported document recovers the ledger exactly.

use vstd::prelude::*;
use vstd::string::*;

use crate::hashing::record_chars_ok;
use crate::hexcode::is_hex_char;

verus! {

/// Opening of a non-empty document: a bracket and a line break.
pub open spec fn doc_open() -> Seq<char> {
    "[\n"@
}

/// Closing of a non-empty document: a line break and a bracket.
pub open spec fn doc_close() -> Seq<char> {
    "\n]"@
}

/// The whole document when the ledger is empty.
pub open spec fn empty_doc() -> Seq<char> {
    "[]"@
}

/// What precedes an entry: the indented inner array opening and the quote.
pub open spec fn item_pre() -> Seq<char> {
    "  [\n    \""@
}

/// What follows an entry: the quote and the indented inner array closing.
pub open spec fn item_post() -> Seq<char> {
    "\"\n  ]"@
}

/// Separator between two one-element arrays.
pub open spec fn item_sep() -> Seq<char> {
    ",\n"@
}

/// One ledger entry as a one-element array of one string.
pub open spec fn item_of(e: Seq<char>) -> Seq<char> {
    item_pre() + e + item_post()
}

/// The item list of a non-empty ledger, separated by `item_sep`.
pub open spec fn json_items(es: Seq<Seq<char>>) -> Seq<char>
    decreases es.len(),
{
    if es.len() == 0 {
        Seq::empty()
    } else if es.len() == 1 {
        item_of(es[0])
    } else {
        item_of(es[0]) + item_sep() + json_items(es.drop_first())
    }
}

/// The whole exported document for a ledger.
pub open spec fn json_of(es: Seq<Seq<char>>) -> Seq<char> {
    if es.len() == 0 {
        empty_doc()
    } else {
        doc_open() + json_items(es) + doc_close()
    }
}

/// An entry that contains no quote; such an entry needs no escaping and
/// its stored form ends exactly at the next quote.
pub open spec fn quote_free(e: Seq<char>) -> bool {
    forall|i: int| 0 <= i < e.len() ==> #[trigger] e[i] != '"'
}

/// Every entry of the ledger is quote-free.
pub open spec fn entries_ok(es: Seq<Seq<char>>) -> bool {
    forall|i: int| 0 <= i < es.len() ==> quote_free(#[trigger] es[i])
}

/// Index of the first quote at or after `i`, if any.
pub open spec fn first_quote_at_or_after(s: Seq<char>, i: int) -> Option<int>
    decreases s.len() - i,
    when 0 <= i <= s.len()
{
    if i >= s.len() {
        None
    } else if s[i] == '"' {
        Some(i)
    } else {
        first_quote_at_or_after(s, i + 1)
    }
}

/// Parses the item list of a non-empty document; the inverse of
/// `json_items` on quote-free entries.
pub open spec fn parse_items(t: Seq<char>) -> Option<Seq<Seq<char>>>
    decreases t.len(),
{
    if t.len() >= 14 && t.take(9) == item_pre() {
        match first_quote_at_or_after(t, 9) {
            Some(k) => if 9 <= k && k + 5 <= t.len() && t.subrange(k, k + 5) == item_post() {
                if k + 5 == t.len() {
                    Some(seq![t.subrange(9, k)])
                } else if k + 7 <= t.len() && t.subrange(k + 5, k + 7) == item_sep() {
                    match parse_items(t.skip(k + 7)) {
                        Some(rest) => Some(seq![t.subrange(9, k)] + rest),
                        None => None,
                    }
                } else {
                    None
                }
            } else {
                None
            },
            None => None,
        }
    } else {
        None
    }
}

/// Parses a whole exported document back into the ledger entries.
pub open spec fn parse_doc(s: Seq<char>) -> Option<Seq<Seq<char>>> {
    if s == empty_doc() {
        Some(Seq::empty())
    } else if s.len() >= 4 && s.take(2) == doc_open() && s.skip(s.len() - 2) == doc_close() {
        parse_items(s.subrange(2, s.len() - 2))
    } else {
        None
    }
}

/// Serializes the ledger: each entry becomes a one-element array holding
/// its stored string, and the whole is a pretty-printed array of those.
pub fn to_json_pretty(entries: &Vec<String>) -> (r: String)
    ensures
        r@ == json_of(entries.deep_view()),
{
    let n = entries.len();
    if n == 0 {
        return String::from_str("[]");
    }
    let mut out = String::from_str("[\n");
    let mut i: usize = 0;
    while i < n
        invariant
            n == entries@.len(),
            i <= n,
            i == 0 ==> out@ == doc_open(),
            i > 0 ==> out@ == doc_open() + json_items(entries.deep_view().take(i as int)),
        decreases n - i,
    {
        if i > 0 {
            out.append(",\n");
        }
        out.append("  [\n    \"");
        out.append(entries[i].as_str());
        out.append("\"\n  ]");
        proof {
            let dv = entries.deep_view();
            assert(dv[i as int] == entries@[i as int]@);
            if i == 0 {
                assert(dv.take(1).len() == 1);
                assert(dv.take(1)[0] == dv[0]);
                assert(out@ =~= doc_open() + json_items(dv.take(1)));
            } else {
                lemma_json_items_snoc(dv.take(i as int), dv[i as int]);
                assert(dv.take(i as int + 1) =~= dv.take(i as int).push(dv[i as int]));
                assert(out@ =~= doc_open() + json_items(dv.take(i as int + 1)));
            }
        }
        i = i + 1;
    }
    out.append("\n]");
    proof {
        assert(entries.deep_view().take(n as int) =~= entries.deep_view());
    }
    out
}

/// Appending one more entry extends the item list by a separator and the
/// entry's one-element array.
proof fn lemma_json_items_snoc(es: Seq<Seq<char>>, e: Seq<char>)
    requires
        es.len() >= 1,
    ensures
        json_items(es.push(e)) == json_items(es) + item_sep() + item_of(e),
    decreases es.len(),
{
    assert(es.push(e)[0] == es[0]);
    if es.len() == 1 {
        assert(es.push(e).drop_first() =~= seq![e]);
        assert(json_items(seq![e]) == item_of(e));
        assert(json_items(es.push(e)) =~= json_items(es) + item_sep() + item_of(e));
    } else {
        lemma_json_items_snoc(es.drop_first(), e);
        assert(es.push(e).drop_first() =~= es.drop_first().push(e));
        assert(json_items(es.push(e)) =~= json_items(es) + item_sep() + item_of(e));
    }
}

/// Parses an exported document back into the stored records. Returns
/// `Some` exactly on the strings that `parse_doc` accepts, and then
/// returns exactly the entries that `parse_doc` reads.
pub fn parse_ledger(s: &str) -> (r: Option<Vec<String>>)
    ensures
        r matches Some(v) ==> parse_doc(s@) == Some(v.deep_view()),
        r is None ==> parse_doc(s@) is None,
{
    let n = s.unicode_len();
    proof {
        reveal_strlit("[]");
        reveal_strlit("[\n");
        reveal_strlit("\n]");
    }
    if n == 2 && s.get_char(0) == '[' && s.get_char(1) == ']' {
        let out: Vec<String> = Vec::new();
        proof {
            assert(s@ =~= empty_doc());
            assert(out.deep_view() =~= Seq::<Seq<char>>::empty());
        }
        return Some(out);
    }
    proof {
        if s@ == empty_doc() {
            assert(s@[0] == '[' && s@[1] == ']' && s@.len() == 2);
        }
    }
    if n < 4 {
        return None;
    }
    if !(s.get_char(0) == '[' && s.get_char(1) == '\n' && s.get_char(n - 2) == '\n' && s.get_char(
        n - 1,
    ) == ']') {
        proof {
            if s@.take(2) == doc_open() {
                assert(s@[0] == doc_open()[0] && s@[1] == doc_open()[1]);
            }
            if s@.skip(n as int - 2) == doc_close() {
                assert(s@[n as int - 2] == doc_close()[0] && s@[n as int - 1] == doc_close()[1]);
            }
        }
        return None;
    }
    let end = n - 2;
    let ghost t = s@.subrange(2, end as int);
    let mut out: Vec<String> = Vec::new();
    let mut i: usize = 2;
    proof {
        assert(s@.take(2) =~= doc_open());
        assert(s@.skip(n as int - 2) =~= doc_close());
        if let Some(rest) = parse_items(t) {
            assert(Seq::<Seq<char>>::empty() + rest =~= rest);
        }
    }
    while i < end
        invariant
            2 <= i <= end,
            end == n - 2,
            n == s@.len(),
            4 <= n,
            t == s@.subrange(2, end as int),
            s@ != empty_doc(),
            s@.take(2) == doc_open(),
            s@.skip(n as int - 2) == doc_close(),
            parse_items(t) == match parse_items(s@.subrange(i as int, end as int)) {
                Some(rest) => Some(out.deep_view() + rest),
                None => None::<Seq<Seq<char>>>,
            },
        decreases end - i,
    {
        proof {
            reveal_strlit("  [\n    \"");
            reveal_strlit("\"\n  ]");
            reveal_strlit(",\n");
        }
        let ghost u = s@.subrange(i as int, end as int);
        if end - i < 14 {
            return None;
        }
        if !(s.get_char(i) == ' ' && s.get_char(i + 1) == ' ' && s.get_char(i + 2) == '['
            && s.get_char(i + 3) == '\n' && s.get_char(i + 4) == ' ' && s.get_char(i + 5) == ' '
            && s.get_char(i + 6) == ' ' && s.get_char(i + 7) == ' ' && s.get_char(i + 8) == '"') {
            proof {
                reveal_strlit("  [\n    \"");
                assert(forall|m: int| 0 <= m < 9 ==> #[trigger] u[m] == s@[i as int + m]);
                if u.take(9) == item_pre() {
                    assert forall|m: int| 0 <= m < 9 implies u[m] == item_pre()[m] by {
                        assert(u.take(9)[m] == u[m]);
                        assert(u.take(9)[m] == item_pre()[m]);
                    }
                    assert(u[0] == ' ' && u[1] == ' ' && u[2] == '[' && u[3] == '\n' && u[4]
                        == ' ' && u[5] == ' ' && u[6] == ' ' && u[7] == ' ' && u[8] == '"');
                }
            }
            return None;
        }
        proof {
            assert(u.take(9) =~= item_pre());
        }
        let mut j = i + 9;
        while j < end && s.get_char(j) != '"'
            invariant
                i + 9 <= j <= end,
                end < n == s@.len(),
                forall|m: int| i + 9 <= m < j ==> s@[m] != '"',
            decreases end - j,
        {
            j = j + 1;
        }
        let ghost k = j as int - i as int;
        if j == end {
            proof {
                assert forall|m: int| 9 <= m < u.len() implies u[m] != '"' by {
                    assert(u[m] == s@[i as int + m]);
                }
                lemma_no_quote(u, 9);
            }
            return None;
        }
        proof {
            assert(u[k] == s@[j as int]);
            assert forall|m: int| 9 <= m < k implies u[m] != '"' by {
                assert(u[m] == s@[i as int + m]);
            }
            lemma_first_quote(u, 9, k);
        }
        if end - j < 5 {
            return None;
        }
        if !(s.get_char(j + 1) == '\n' && s.get_char(j + 2) == ' ' && s.get_char(j + 3) == ' '
            && s.get_char(j + 4) == ']') {
            proof {
                reveal_strlit("\"\n  ]");
                assert(u[k + 1] == s@[j as int + 1]);
                assert(u[k + 2] == s@[j as int + 2]);
                assert(u[k + 3] == s@[j as int + 3]);
                assert(u[k + 4] == s@[j as int + 4]);
                if u.subrange(k, k + 5) == item_post() {
                    assert(u.subrange(k, k + 5)[1] == u[k + 1]);
                    assert(u.subrange(k, k + 5)[2] == u[k + 2]);
                    assert(u.subrange(k, k + 5)[3] == u[k + 3]);
                    assert(u.subrange(k, k + 5)[4] == u[k + 4]);
                    assert(u[k + 1] == '\n' && u[k + 2] == ' ' && u[k + 3] == ' ' && u[k + 4]
                        == ']');
                }
            }
            return None;
        }
        proof {
            assert(u.subrange(k, k + 5) =~= item_post());
        }
        let entry = String::from_str(s.substring_char(i + 9, j));
        let ghost prev_dv = out.deep_view();
        out.push(entry);
        proof {
            assert(entry@ =~= u.subrange(9, k));
            assert(out.deep_view() =~= prev_dv.push(u.subrange(9, k)));
        }
        if j + 5 == end {
            proof {
                assert(k + 5 == u.len());
                assert(parse_items(u) == Some(seq![u.subrange(9, k)]));
                assert(prev_dv + seq![u.subrange(9, k)] =~= out.deep_view());
                assert(parse_items(t) == Some(out.deep_view()));
            }
            return Some(out);
        }
        if end - j < 7 {
            return None;
        }
        if !(s.get_char(j + 5) == ',' && s.get_char(j + 6) == '\n') {
            proof {
                reveal_strlit(",\n");
                assert(u[k + 5] == s@[j as int + 5]);
                assert(u[k + 6] == s@[j as int + 6]);
                if u.subrange(k + 5, k + 7) == item_sep() {
                    assert(u.subrange(k + 5, k + 7)[0] == u[k + 5]);
                    assert(u.subrange(k + 5, k + 7)[1] == u[k + 6]);
                    assert(u[k + 5] == ',' && u[k + 6] == '\n');
                }
            }
            return None;
        }
        proof {
            assert(u.subrange(k + 5, k + 7) =~= item_sep());
            assert(u.skip(k + 7) =~= s@.subrange(j as int + 7, end as int));
            if let Some(rest) = parse_items(u.skip(k + 7)) {
                assert(prev_dv + (seq![u.subrange(9, k)] + rest) =~= out.deep_view() + rest);
            }
        }
        i = j + 7;
    }
    proof {
        assert(s@.subrange(i as int, end as int).len() == 0);
    }
    None
}

/// When no quote occurs at or after `i`, the search finds none.
proof fn lemma_no_quote(s: Seq<char>, i: int)
    requires
        0 <= i <= s.len(),
        forall|j: int| i <= j < s.len() ==> s[j] != '"',
    ensures
        first_quote_at_or_after(s, i) is None,
    decreases s.len() - i,
{
    if i < s.len() {
        lemma_no_quote(s, i + 1);
    }
}

proof fn lemma_first_quote(s: Seq<char>, i: int, k: int)
    requires
        0 <= i <= k < s.len(),
        s[k] == '"',
        forall|j: int| i <= j < k ==> s[j] != '"',
    ensures
        first_quote_at_or_after(s, i) == Some(k),
    decreases k - i,
{
    if i < k {
        lemma_first_quote(s, i + 1, k);
    }
}

proof fn lemma_parse_items_json(es: Seq<Seq<char>>)
    requires
        es.len() >= 1,
        entries_ok(es),
    ensures
        parse_items(json_items(es)) == Some(es),
    decreases es.len(),
{
    reveal_strlit("  [\n    \"");
    reveal_strlit("\"\n  ]");
    reveal_strlit(",\n");
    let e0 = es[0];
    let t = json_items(es);
    let k = 9 + e0.len() as int;
    assert(item_of(e0).len() == 14 + e0.len());
    if es.len() == 1 {
        assert(t == item_of(e0));
        assert(t.take(9) =~= item_pre());
        assert(t[k] == item_post()[0]);
        assert forall|j: int| 9 <= j < k implies t[j] != '"' by {
            assert(t[j] == e0[j - 9]);
        }
        lemma_first_quote(t, 9, k);
        assert(t.subrange(9, k) =~= e0);
        assert(t.subrange(k, k + 5) =~= item_post());
        assert(k + 5 == t.len());
        assert(seq![t.subrange(9, k)] =~= es);
    } else {
        let rest = json_items(es.drop_first());
        assert(t == item_of(e0) + item_sep() + rest);
        lemma_json_items_min_len(es.drop_first());
        assert(t.take(9) =~= item_pre());
        assert forall|j: int| 9 <= j < k implies t[j] != '"' by {
            assert(t[j] == e0[j - 9]);
        }
        assert(t[k] == item_post()[0]);
        lemma_first_quote(t, 9, k);
        assert(t.subrange(9, k) =~= e0);
        assert(t.subrange(k, k + 5) =~= item_post());
        assert(k + 5 < t.len());
        assert(t.subrange(k + 5, k + 7) =~= item_sep());
        assert(t.skip(k + 7) =~= rest);
        assert(entries_ok(es.drop_first())) by {
            assert forall|i: int| 0 <= i < es.drop_first().len() implies quote_free(
                #[trigger] es.drop_first()[i],
            ) by {
                assert(es.drop_first()[i] == es[i + 1]);
            }
        }
        lemma_parse_items_json(es.drop_first());
        assert(seq![t.subrange(9, k)] + es.drop_first() =~= es);
    }
}

/// The item list of a non-empty ledger is at least one whole item long.
proof fn lemma_json_items_min_len(es: Seq<Seq<char>>)
    requires
        es.len() >= 1,
    ensures
        json_items(es).len() >= 14,
{
    reveal_strlit("  [\n    \"");
    reveal_strlit("\"\n  ]");
    assert(item_of(es[0]).len() == 14 + es[0].len());
}

/// Exporting and then parsing the document recovers the ledger exactly,
/// in order and content: `parse_doc` is the exact inverse of `json_of` on
/// quote-free entries, and every stored record is quote-free.
pub proof fn lemma_export_round_trip(es: Seq<Seq<char>>)
    requires
        entries_ok(es),
    ensures
        parse_doc(json_of(es)) == Some(es),
{
    reveal_strlit("[\n");
    reveal_strlit("\n]");
    reveal_strlit("[]");
    if es.len() == 0 {
        assert(json_of(es) == empty_doc());
        assert(es =~= Seq::<Seq<char>>::empty());
    } else {
        let s = json_of(es);
        lemma_json_items_min_len(es);
        assert(s.len() >= 18);
        assert(s.len() != empty_doc().len());
        assert(s != empty_doc());
        assert(s.take(2) =~= doc_open());
        assert(s.skip(s.len() - 2) =~= doc_close());
        assert(s.subrange(2, s.len() - 2) =~= json_items(es));
        lemma_parse_items_json(es);
    }
}

/// Exporting a ledger of stored records and parsing the document back
/// recovers the ledger exactly, in order and content: stored records
/// consist of hexadecimal digits and commas only, so they are quote-free
/// and the document round-trips.
pub proof fn lemma_ledger_round_trip(es: Seq<Seq<char>>)
    requires
        forall|i: int| 0 <= i < es.len() ==> record_chars_ok(#[trigger] es[i]),
    ensures
        parse_doc(json_of(es)) == Some(es),
{
    lemma_records_are_quote_free(es);
    lemma_export_round_trip(es);
}

/// Stored records consist of hexadecimal digits and commas only, so a
/// whole ledger of them is quote-free.
proof fn lemma_records_are_quote_free(es: Seq<Seq<char>>)
    requires
        forall|i: int| 0 <= i < es.len() ==> record_chars_ok(#[trigger] es[i]),
    ensures
        entries_ok(es),
{
    assert forall|i: int| 0 <= i < es.len() implies quote_free(#[trigger] es[i]) by {
        assert forall|j: int| 0 <= j < es[i].len() implies #[trigger] es[i][j] != '"' by {
            assert(is_hex_char(es[i][j]) || es[i][j] == ',');
        }
    }
}

} // verus!
