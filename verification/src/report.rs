//! Rendering the entries as a comma-separated table: a fixed header
//! row, then one row per entry in store order, with the description
//! quoted and embedded quotes doubled.  Writing the table to a file is
//! the caller's business.

use vstd::prelude::*;
use vstd::string::StrSliceExecFns;
use vstd::string::StringExecFns;

use crate::model::AppData;
use crate::model::EntryModel;

verus! {

/// The character of one decimal digit.
pub open spec fn digit_seq(d: int) -> Seq<char> {
    if d == 0 {
        "0"@
    } else if d == 1 {
        "1"@
    } else if d == 2 {
        "2"@
    } else if d == 3 {
        "3"@
    } else if d == 4 {
        "4"@
    } else if d == 5 {
        "5"@
    } else if d == 6 {
        "6"@
    } else if d == 7 {
        "7"@
    } else if d == 8 {
        "8"@
    } else {
        "9"@
    }
}

/// The decimal rendering of a nonnegative number.
pub open spec fn spec_dec(n: int) -> Seq<char>
    decreases n,
{
    if n < 10 {
        digit_seq(n)
    } else {
        spec_dec(n / 10) + digit_seq(n % 10)
    }
}

/// A text with every double quote doubled.
pub open spec fn escape_quotes(s: Seq<char>) -> Seq<char>
    decreases s.len(),
{
    if s.len() == 0 {
        Seq::empty()
    } else {
        escape_quotes(s.drop_last()) + (if s.last() == '"' {
            seq!['"', '"']
        } else {
            seq![s.last()]
        })
    }
}

/// One table row: the entry's fields in order, the description quoted
/// and escaped, closed by a line break.
pub open spec fn csv_row(e: EntryModel) -> Seq<char> {
    e.id + ","@ + e.entry_type.spec_code() + ","@ + spec_dec(e.amount) + ","@
        + e.currency.spec_code() + ","@ + e.category + ","@ + e.date + ","@ + "\""@
        + escape_quotes(e.description) + "\""@ + "\n"@
}

/// The rows of all entries, in store order.
pub open spec fn csv_rows(s: Seq<EntryModel>) -> Seq<char>
    decreases s.len(),
{
    if s.len() == 0 {
        Seq::empty()
    } else {
        csv_rows(s.drop_last()) + csv_row(s.last())
    }
}

/// The whole table: the header row, then one row per entry.
pub open spec fn csv_document(s: Seq<EntryModel>) -> Seq<char> {
    "ID,Type,Amount,Currency,Category,Date,Description\n"@ + csv_rows(s)
}

/// Returns one decimal digit as a fresh string.
fn digit_str(d: u64) -> (r: String)
    requires
        d <= 9,
    ensures
        r@ == digit_seq(d as int),
{
    if d == 0 {
        String::from_str("0")
    } else if d == 1 {
        String::from_str("1")
    } else if d == 2 {
        String::from_str("2")
    } else if d == 3 {
        String::from_str("3")
    } else if d == 4 {
        String::from_str("4")
    } else if d == 5 {
        String::from_str("5")
    } else if d == 6 {
        String::from_str("6")
    } else if d == 7 {
        String::from_str("7")
    } else if d == 8 {
        String::from_str("8")
    } else {
        String::from_str("9")
    }
}

/// Renders a number in decimal.
fn dec_string(n: u64) -> (r: String)
    ensures
        r@ == spec_dec(n as int),
    decreases n,
{
    if n < 10 {
        digit_str(n)
    } else {
        let high = dec_string(n / 10);
        let low = digit_str(n % 10);
        high.concat(low.as_str())
    }
}

/// Doubles every double quote of a text.
fn escape_description(s: &str) -> (r: String)
    ensures
        r@ == escape_quotes(s@),
{
    let n = s.unicode_len();
    let mut r = String::new();
    let mut i: usize = 0;
    while i < n
        invariant
            i <= n,
            n == s@.len(),
            r@ == escape_quotes(s@.take(i as int)),
        decreases n - i,
    {
        proof {
            assert(s@.take(i + 1).drop_last() =~= s@.take(i as int));
            assert(s@.take(i + 1).last() == s@[i as int]);
        }
        let c = s.get_char(i);
        if c == '"' {
            r.append("\"\"");
            proof {
                reveal_strlit("\"\"");
                assert("\"\""@ =~= seq!['"', '"']);
            }
        } else {
            let piece = s.substring_char(i, i + 1);
            r.append(piece);
            proof {
                assert(piece@ =~= seq![s@[i as int]]);
            }
        }
        i = i + 1;
    }
    proof {
        assert(s@.take(n as int) =~= s@);
    }
    r
}

impl AppData {
    /// The entries rendered as the comma-separated table, exactly as
    /// stored: no currency projection is applied on export.
    pub fn export_csv(&self) -> (r: String)
        ensures
            r@ == csv_document(self@.entries),
    {
        let ghost s = self@.entries;
        let n = self.entries.len();
        let mut out = String::from_str("ID,Type,Amount,Currency,Category,Date,Description\n");
        let mut i: usize = 0;
        while i < n
            invariant
                i <= n,
                n == self.entries.len(),
                s == self@.entries,
                out@ == "ID,Type,Amount,Currency,Category,Date,Description\n"@ + csv_rows(
                    s.take(i as int),
                ),
            decreases n - i,
        {
            proof {
                assert(s.take(i + 1).drop_last() =~= s.take(i as int));
                assert(s.take(i + 1).last() == s[i as int]);
            }
            let ghost row_start = out@;
            let e = &self.entries[i];
            out.append(e.id.as_str());
            out.append(",");
            let kind = e.entry_type.code();
            out.append(kind.as_str());
            out.append(",");
            let amount = dec_string(e.amount);
            out.append(amount.as_str());
            out.append(",");
            let code = e.currency.code();
            out.append(code.as_str());
            out.append(",");
            out.append(e.category.as_str());
            out.append(",");
            out.append(e.date.as_str());
            out.append(",");
            out.append("\"");
            let escaped = escape_description(e.description.as_str());
            out.append(escaped.as_str());
            out.append("\"");
            out.append("\n");
            proof {
                assert(out@ =~= row_start + csv_row(s[i as int]));
                assert(out@ =~= "ID,Type,Amount,Currency,Category,Date,Description\n"@ + csv_rows(
                    s.take(i + 1),
                ));
            }
            i = i + 1;
        }
        proof {
            assert(s.take(n as int) =~= s);
        }
        out
    }
}

} // verus!
