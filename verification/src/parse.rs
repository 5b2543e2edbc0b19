//! Tolerant parser for two-line header/value diagnostic-tool output.
//!
//! Line 0 holds whitespace-separated column headers, line 1 the values,
//! aligned positionally.  Fewer than two lines is the only hard failure.
//! When the counts differ, only the first `min` columns are paired and a
//! value that does not parse as a number degrades to zero.  When the counts
//! match, the placeholder `-` reads as zero and a value that does not parse
//! as a number drops that single column.

use vstd::prelude::*;
use crate::numeric::numeric_token;
use crate::text::{lines_of, split_lines, tokens_of, views};

verus! {

/// Why parsing failed: the output had fewer than two lines.
#[derive(Clone, Copy, PartialEq, Eq, Structural, Debug)]
pub enum ParseError {
    Truncated,
}

/// One parsed column: a metric name and its numeric value, kept as the
/// original text token (the caller converts it; every token returned here
/// parses as a number).
#[derive(Debug)]
pub struct Reading {
    pub name: String,
    pub value: String,
}

/// Result of parsing one table: the readings in column order and whether the
/// header and value counts disagreed (worth a warning to the caller).
#[derive(Debug)]
pub struct TableParse {
    pub readings: Vec<Reading>,
    pub mismatched: bool,
}

/// The placeholder token that reads as zero.
pub open spec fn dash_token() -> Seq<char> {
    seq!['-']
}

/// The zero text substituted for placeholders and unparsable clipped values.
pub open spec fn zero_token() -> Seq<char> {
    seq!['0']
}

/// The view of a reading: its name and value texts.
pub open spec fn reading_view(r: Reading) -> (Seq<char>, Seq<char>) {
    (r.name@, r.value@)
}

/// The views of a sequence of readings.
pub open spec fn reading_views(rs: Seq<Reading>) -> Seq<(Seq<char>, Seq<char>)> {
    rs.map_values(|r: Reading| reading_view(r))
}

/// Readings of the first `n` columns when header and value counts match:
/// `-` reads as zero, non-numeric values drop their column.
pub open spec fn matched_readings(h: Seq<Seq<char>>, v: Seq<Seq<char>>, n: int) -> Seq<
    (Seq<char>, Seq<char>),
>
    decreases n,
{
    if n <= 0 {
        Seq::empty()
    } else {
        let prev = matched_readings(h, v, n - 1);
        if v[n - 1] == dash_token() {
            prev.push((h[n - 1], zero_token()))
        } else if numeric_token(v[n - 1]) {
            prev.push((h[n - 1], v[n - 1]))
        } else {
            prev
        }
    }
}

/// Readings of the first `n` columns when the counts disagree: every paired
/// column is kept, a non-numeric value degrading to zero.
pub open spec fn clipped_readings(h: Seq<Seq<char>>, v: Seq<Seq<char>>, n: int) -> Seq<
    (Seq<char>, Seq<char>),
>
    decreases n,
{
    if n <= 0 {
        Seq::empty()
    } else {
        let prev = clipped_readings(h, v, n - 1);
        if numeric_token(v[n - 1]) {
            prev.push((h[n - 1], v[n - 1]))
        } else {
            prev.push((h[n - 1], zero_token()))
        }
    }
}

/// The output has fewer than the two lines the format requires.
pub open spec fn table_truncated(s: Seq<char>) -> bool {
    lines_of(s).len() < 2
}

/// The header and value counts of the output disagree.
pub open spec fn table_mismatched(s: Seq<char>) -> bool {
    tokens_of(lines_of(s)[0]).len() != tokens_of(lines_of(s)[1]).len()
}

/// All readings of the output, in column order.
pub open spec fn table_readings(s: Seq<char>) -> Seq<(Seq<char>, Seq<char>)> {
    let h = tokens_of(lines_of(s)[0]);
    let v = tokens_of(lines_of(s)[1]);
    if h.len() == v.len() {
        matched_readings(h, v, h.len() as int)
    } else if h.len() < v.len() {
        clipped_readings(h, v, h.len() as int)
    } else {
        clipped_readings(h, v, v.len() as int)
    }
}

/// Whether this token is the `-` placeholder.
fn is_dash(t: &str) -> (r: bool)
    ensures
        r == (t@ == dash_token()),
{
    if t.unicode_len() == 1 {
        let c = t.get_char(0);
        proof {
            if c == '-' {
                assert(t@ =~= dash_token());
            } else {
                assert(t@ != dash_token());
            }
        }
        c == '-'
    } else {
        proof {
            assert(t@ != dash_token());
        }
        false
    }
}

/// A fresh `"0"` value text.
fn zero_string() -> (r: String)
    ensures
        r@ == zero_token(),
{
    let z = String::from_str("0");
    proof {
        reveal_strlit("0");
        assert(z@ =~= zero_token());
    }
    z
}

/// Parse two-line header/value tool output into readings.
pub fn parse_table(s: &str) -> (r: Result<TableParse, ParseError>)
    ensures
        r is Err <==> table_truncated(s@),
        r matches Err(e) ==> e == ParseError::Truncated,
        r matches Ok(p) ==> reading_views(p.readings@) == table_readings(s@)
            && p.mismatched == table_mismatched(s@),
{
    let lines = split_lines(s);
    if lines.len() < 2 {
        return Err(ParseError::Truncated);
    }
    let headers = crate::text::whitespace_tokens(lines[0].as_str());
    let values = crate::text::whitespace_tokens(lines[1].as_str());
    let ghost h = tokens_of(lines_of(s@)[0]);
    let ghost v = tokens_of(lines_of(s@)[1]);
    proof {
        assert(lines@[0]@ == lines_of(s@)[0]);
        assert(lines@[1]@ == lines_of(s@)[1]);
        assert(views(headers@) == h);
        assert(views(values@) == v);
    }
    let mut readings: Vec<Reading> = Vec::new();
    if headers.len() == values.len() {
        let n = headers.len();
        let mut i: usize = 0;
        proof {
            assert(reading_views(readings@) =~~= matched_readings(h, v, 0));
        }
        while i < n
            invariant
                n == headers.len() == values.len(),
                views(headers@) == h,
                views(values@) == v,
                h.len() == n,
                v.len() == n,
                0 <= i <= n,
                reading_views(readings@) == matched_readings(h, v, i as int),
            decreases n - i,
        {
            proof {
                assert(headers@[i as int]@ == h[i as int]);
                assert(values@[i as int]@ == v[i as int]);
            }
            if is_dash(values[i].as_str()) {
                let rd = Reading { name: headers[i].clone(), value: zero_string() };
                proof {
                    assert(reading_views(readings@.push(rd)) =~~= reading_views(
                        readings@,
                    ).push(reading_view(rd)));
                }
                readings.push(rd);
            } else if crate::numeric::token_is_numeric(values[i].as_str()) {
                let rd = Reading { name: headers[i].clone(), value: values[i].clone() };
                proof {
                    assert(reading_views(readings@.push(rd)) =~~= reading_views(
                        readings@,
                    ).push(reading_view(rd)));
                }
                readings.push(rd);
            }
            i += 1;
        }
        Ok(TableParse { readings, mismatched: false })
    } else {
        let n = if headers.len() < values.len() {
            headers.len()
        } else {
            values.len()
        };
        let mut i: usize = 0;
        proof {
            assert(reading_views(readings@) =~~= clipped_readings(h, v, 0));
        }
        while i < n
            invariant
                n <= headers.len(),
                n <= values.len(),
                views(headers@) == h,
                views(values@) == v,
                h.len() == headers.len(),
                v.len() == values.len(),
                0 <= i <= n,
                reading_views(readings@) == clipped_readings(h, v, i as int),
            decreases n - i,
        {
            proof {
                assert(headers@[i as int]@ == h[i as int]);
                assert(values@[i as int]@ == v[i as int]);
            }
            let val = if crate::numeric::token_is_numeric(values[i].as_str()) {
                values[i].clone()
            } else {
                zero_string()
            };
            let rd = Reading { name: headers[i].clone(), value: val };
            proof {
                assert(reading_views(readings@.push(rd)) =~~= reading_views(readings@).push(
                    reading_view(rd),
                ));
            }
            readings.push(rd);
            i += 1;
        }
        Ok(TableParse { readings, mismatched: true })
    }
}

} // verus!
