//! Textual renderings of the book.
//!
//! Prices and quantities print as their plain fixed-point values. The
//! best-quote line reads `bid: {qty}, {price}, ask: {price}, {qty}` with
//! `No bids` / `No asks` standing in for an empty side; the table rendering
//! is a fixed-width four-column snapshot, best first, with the shorter side
//! padded by zero levels so both columns have equal row counts. Both are pure
//! functions of the book's state.

use vstd::prelude::*;

use crate::book::OrderBook;
use crate::types::BuySell;

verus! {

/// The column width of the table rendering.
pub const COLUMN_WIDTH: usize = 15;

/// The decimal digit character for `d` (< 10).
pub open spec fn dec_digit(d: nat) -> char {
    if d == 0 {
        '0'
    } else if d == 1 {
        '1'
    } else if d == 2 {
        '2'
    } else if d == 3 {
        '3'
    } else if d == 4 {
        '4'
    } else if d == 5 {
        '5'
    } else if d == 6 {
        '6'
    } else if d == 7 {
        '7'
    } else if d == 8 {
        '8'
    } else {
        '9'
    }
}

/// The decimal digits of `n`, most significant first, no leading zeros
/// (a lone zero for 0).
pub open spec fn dec_str(n: nat) -> Seq<char>
    decreases n,
{
    if n < 10 {
        seq![dec_digit(n)]
    } else {
        dec_str(n / 10).push(dec_digit(n % 10))
    }
}

/// `n` spaces.
pub open spec fn spaces(n: nat) -> Seq<char>
    decreases n,
{
    if n == 0 {
        Seq::empty()
    } else {
        spaces((n - 1) as nat).push(' ')
    }
}

/// `s` left-aligned in a field of `width`: padded with spaces when shorter,
/// kept whole when longer.
pub open spec fn spec_pad(s: Seq<char>, width: nat) -> Seq<char> {
    if s.len() >= width {
        s
    } else {
        s + spaces((width - s.len()) as nat)
    }
}

/// The one-line best-quote rendering of the book.
pub open spec fn spec_best_quote(bids: Seq<(u64, u64)>, asks: Seq<(u64, u64)>) -> Seq<char> {
    let bid_part = if bids.len() == 0 {
        "No bids"@
    } else {
        dec_str(bids[0].1 as nat) + ", "@ + dec_str(bids[0].0 as nat)
    };
    let ask_part = if asks.len() == 0 {
        "No asks"@
    } else {
        dec_str(asks[0].0 as nat) + ", "@ + dec_str(asks[0].1 as nat)
    };
    "bid: "@ + bid_part + ", ask: "@ + ask_part
}

/// One table row: bid price, bid quantity, ask price, ask quantity, each in
/// its column.
pub open spec fn spec_row(bp: u64, bq: u64, ap: u64, aq: u64) -> Seq<char> {
    spec_pad(dec_str(bp as nat), COLUMN_WIDTH as nat) + " "@ + spec_pad(
        dec_str(bq as nat),
        COLUMN_WIDTH as nat,
    ) + " "@ + spec_pad(dec_str(ap as nat), COLUMN_WIDTH as nat) + " "@ + spec_pad(
        dec_str(aq as nat),
        COLUMN_WIDTH as nat,
    ) + "\n"@
}

/// The table header line.
pub open spec fn spec_header() -> Seq<char> {
    spec_pad("Bid"@, COLUMN_WIDTH as nat) + " "@ + spec_pad("Volume"@, COLUMN_WIDTH as nat) + " "@
        + spec_pad("Ask"@, COLUMN_WIDTH as nat) + " "@ + spec_pad("Volume"@, COLUMN_WIDTH as nat)
        + "\n"@
}

/// The level a side shows in row `i`: its own when deep enough, the zero
/// level used as padding otherwise.
pub open spec fn row_pair_at(s: Seq<(u64, u64)>, i: int) -> (u64, u64) {
    if 0 <= i < s.len() {
        s[i]
    } else {
        (0, 0)
    }
}

/// The larger of two lengths.
pub open spec fn max_nat(a: nat, b: nat) -> nat {
    if a > b {
        a
    } else {
        b
    }
}

/// The table rows from row `i` on, down to the deeper side's last level.
pub open spec fn spec_rows(bids: Seq<(u64, u64)>, asks: Seq<(u64, u64)>, i: int) -> Seq<char>
    decreases max_nat(bids.len(), asks.len()) - i,
{
    if i < max_nat(bids.len(), asks.len()) && i >= 0 {
        let b = row_pair_at(bids, i);
        let a = row_pair_at(asks, i);
        spec_row(b.0, b.1, a.0, a.1) + spec_rows(bids, asks, i + 1)
    } else {
        Seq::empty()
    }
}

/// The whole table rendering: header, then one row per level of the deeper
/// side.
pub open spec fn spec_table(bids: Seq<(u64, u64)>, asks: Seq<(u64, u64)>) -> Seq<char> {
    spec_header() + spec_rows(bids, asks, 0)
}

/// The single decimal digit character of `d`.
fn digit_str(d: u64) -> (s: &'static str)
    requires
        d < 10,
    ensures
        s@ == seq![dec_digit(d as nat)],
{
    proof {
        reveal_strlit("0");
        reveal_strlit("1");
        reveal_strlit("2");
        reveal_strlit("3");
        reveal_strlit("4");
        reveal_strlit("5");
        reveal_strlit("6");
        reveal_strlit("7");
        reveal_strlit("8");
        reveal_strlit("9");
        assert("0"@ =~= seq!['0']);
        assert("1"@ =~= seq!['1']);
        assert("2"@ =~= seq!['2']);
        assert("3"@ =~= seq!['3']);
        assert("4"@ =~= seq!['4']);
        assert("5"@ =~= seq!['5']);
        assert("6"@ =~= seq!['6']);
        assert("7"@ =~= seq!['7']);
        assert("8"@ =~= seq!['8']);
        assert("9"@ =~= seq!['9']);
    }
    if d == 0 {
        "0"
    } else if d == 1 {
        "1"
    } else if d == 2 {
        "2"
    } else if d == 3 {
        "3"
    } else if d == 4 {
        "4"
    } else if d == 5 {
        "5"
    } else if d == 6 {
        "6"
    } else if d == 7 {
        "7"
    } else if d == 8 {
        "8"
    } else {
        "9"
    }
}

/// `n` written in decimal.
fn dec_string(n: u64) -> (s: String)
    ensures
        s@ == dec_str(n as nat),
    decreases n,
{
    if n < 10 {
        String::from_str(digit_str(n))
    } else {
        let mut s = dec_string(n / 10);
        s.append(digit_str(n % 10));
        proof {
            assert(s@ =~= dec_str((n / 10) as nat).push(dec_digit((n % 10) as nat)));
        }
        s
    }
}

/// `s` left-aligned in a field of `width` by appending spaces.
fn pad_to(s: String, width: usize) -> (r: String)
    ensures
        r@ == spec_pad(s@, width as nat),
{
    proof {
        reveal_strlit(" ");
        assert(" "@ =~= seq![' ']);
    }
    let ghost base = s@;
    let mut r = s;
    let mut len = r.as_str().unicode_len();
    while len < width
        invariant
            len == r@.len(),
            base.len() <= r@.len(),
            r@ =~= base + spaces((r@.len() - base.len()) as nat),
            len <= width || r@ == base,
            " "@ =~= seq![' '],
        decreases width - len,
    {
        r.append(" ");
        len = len + 1;
        proof {
            assert(r@ =~= base + spaces((r@.len() - base.len()) as nat));
        }
    }
    proof {
        if base.len() >= width as nat {
            assert(r@ =~= base);
        } else {
            assert(r@.len() == width);
        }
        assert(r@ == spec_pad(base, width as nat));
    }
    r
}

/// The table header line.
fn table_header() -> (r: String)
    ensures
        r@ == spec_header(),
{
    let mut out = pad_to(String::from_str("Bid"), COLUMN_WIDTH);
    out.append(" ");
    out.append(pad_to(String::from_str("Volume"), COLUMN_WIDTH).as_str());
    out.append(" ");
    out.append(pad_to(String::from_str("Ask"), COLUMN_WIDTH).as_str());
    out.append(" ");
    out.append(pad_to(String::from_str("Volume"), COLUMN_WIDTH).as_str());
    out.append("\n");
    proof {
        assert(out@ =~= spec_header());
    }
    out
}

/// One table row.
fn table_row(bp: u64, bq: u64, ap: u64, aq: u64) -> (r: String)
    ensures
        r@ == spec_row(bp, bq, ap, aq),
{
    let mut out = pad_to(dec_string(bp), COLUMN_WIDTH);
    out.append(" ");
    out.append(pad_to(dec_string(bq), COLUMN_WIDTH).as_str());
    out.append(" ");
    out.append(pad_to(dec_string(ap), COLUMN_WIDTH).as_str());
    out.append(" ");
    out.append(pad_to(dec_string(aq), COLUMN_WIDTH).as_str());
    out.append("\n");
    proof {
        assert(out@ =~= spec_row(bp, bq, ap, aq));
    }
    out
}

impl OrderBook {
    /// The one-line best-quote rendering: quantity and price of the best
    /// bid, then price and quantity of the best ask, an empty side shown as
    /// absent. A pure function of the best-quote state.
    pub fn best(&self) -> (r: String)
        requires
            self.wf(),
        ensures
            r@ == spec_best_quote(self.bids_pairs(), self.asks_pairs()),
    {
        let mut out = String::from_str("bid: ");
        match self.best_bid() {
            Some((price, qty)) => {
                out.append(dec_string(qty.value()).as_str());
                out.append(", ");
                out.append(dec_string(price.value()).as_str());
            },
            None => {
                out.append("No bids");
            },
        }
        out.append(", ask: ");
        match self.best_ask() {
            Some((price, qty)) => {
                out.append(dec_string(price.value()).as_str());
                out.append(", ");
                out.append(dec_string(qty.value()).as_str());
            },
            None => {
                out.append("No asks");
            },
        }
        out
    }

    /// The fixed-width table rendering: a header and one row per level of
    /// the deeper side, best first, the shorter side padded with zero
    /// levels. A pure function of the book's state.
    #[verifier::loop_isolation(false)]
    pub fn print(&self) -> (r: String)
        requires
            self.wf(),
        ensures
            r@ == spec_table(self.bids_pairs(), self.asks_pairs()),
    {
        let bids_len = self.side_len(BuySell::Buy);
        let asks_len = self.side_len(BuySell::Sell);
        let max_len = if bids_len > asks_len {
            bids_len
        } else {
            asks_len
        };
        let ghost bids = self.bids_pairs();
        let ghost asks = self.asks_pairs();
        let mut out = table_header();
        let mut i: usize = 0;
        while i < max_len
            invariant
                i <= max_len,
                spec_table(bids, asks) =~= out@ + spec_rows(bids, asks, i as int),
            decreases max_len - i,
        {
            let bid_level = self.get_level(i, BuySell::Buy);
            let ask_level = self.get_level(i, BuySell::Sell);
            let ghost before = out@;
            let row = table_row(bid_level.price.0, bid_level.qty.0, ask_level.price.0, ask_level.qty.0);
            out.append(row.as_str());
            proof {
                let b = row_pair_at(bids, i as int);
                let a = row_pair_at(asks, i as int);
                assert(bid_level.price.0 == b.0 && bid_level.qty.0 == b.1);
                assert(ask_level.price.0 == a.0 && ask_level.qty.0 == a.1);
                assert(out@ =~= before + spec_row(b.0, b.1, a.0, a.1));
                assert(spec_rows(bids, asks, i as int) =~= spec_row(b.0, b.1, a.0, a.1)
                    + spec_rows(bids, asks, i as int + 1));
                assert(spec_table(bids, asks) =~= out@ + spec_rows(bids, asks, i as int + 1));
            }
            i += 1;
        }
        proof {
            assert(spec_rows(bids, asks, max_len as int) =~= Seq::<char>::empty());
            assert(spec_table(bids, asks) =~= out@);
        }
        out
    }
}

/// Idempotent rendering: `print` and `best` each return exactly the spec
/// rendering of the book's pairs, so two calls without an intervening update
/// — their results are the parameters here, constrained just as those
/// contracts constrain them — yield identical output.
pub proof fn lemma_rendering_idempotent(
    book: &OrderBook,
    table_one: Seq<char>,
    table_two: Seq<char>,
    quote_one: Seq<char>,
    quote_two: Seq<char>,
)
    requires
        table_one == spec_table(book.bids_pairs(), book.asks_pairs()),
        table_two == spec_table(book.bids_pairs(), book.asks_pairs()),
        quote_one == spec_best_quote(book.bids_pairs(), book.asks_pairs()),
        quote_two == spec_best_quote(book.bids_pairs(), book.asks_pairs()),
    ensures
        table_one == table_two,
        quote_one == quote_two,
{
}

} // verus!
