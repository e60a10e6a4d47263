//! Client records: one strongly typed row per client, loaded from a
//! spreadsheet's `values` matrix.
//!
//! The first row holds the column headers; data rows follow until the
//! first row whose `ME` cell is blank. Cells are trimmed on the way in;
//! yes/no cells accept `Y`, `YES`, `TRUE` and `1` in any letter case.

use crate::candidates::eq_chars;
use crate::text::{chars_of, str_eq, trim_str, trimmed};
use vstd::prelude::*;

verus! {

/// ASCII uppercasing of one character.
pub open spec fn upper_char(c: char) -> char {
    if 97 <= c as u32 <= 122 {
        (((c as u32) - 32) as u8) as char
    } else {
        c
    }
}

/// ASCII uppercasing of a text.
pub open spec fn upper_seq(s: Seq<char>) -> Seq<char> {
    s.map_values(|c: char| upper_char(c))
}

/// Uppercase a text (ASCII letters only).
fn to_upper(s: &Vec<char>) -> (r: Vec<char>)
    ensures
        r@ == upper_seq(s@),
{
    let mut out: Vec<char> = Vec::new();
    let mut i: usize = 0;
    while i < s.len()
        invariant
            i <= s@.len(),
            out@ == upper_seq(s@.take(i as int)),
        decreases s@.len() - i,
    {
        proof {
            assert(upper_seq(s@.take(i + 1)) =~= upper_seq(s@.take(i as int)).push(
                upper_char(s@[i as int]),
            ));
        }
        let c = s[i];
        let v = c as u32;
        if 97 <= v && v <= 122 {
            out.push(((v - 32) as u8) as char);
        } else {
            out.push(c);
        }
        i += 1;
    }
    proof {
        assert(s@.take(s@.len() as int) =~= s@);
    }
    out
}

/// A yes value: `Y`, `YES`, `TRUE` or `1`, in any letter case, with
/// surrounding whitespace ignored.
pub open spec fn spec_yn(s: Seq<char>) -> bool {
    let t = upper_seq(trimmed(s));
    t == seq!['Y'] || t == seq!['Y', 'E', 'S'] || t == seq!['T', 'R', 'U', 'E'] || t == seq!['1']
}

/// Read a yes/no cell.
pub fn parse_yn(s: &str) -> (r: bool)
    ensures
        r == spec_yn(s@),
{
    let t = trim_str(s);
    let u = to_upper(&chars_of(t));
    let y = vec!['Y'];
    let yes = vec!['Y', 'E', 'S'];
    let tr = vec!['T', 'R', 'U', 'E'];
    let one = vec!['1'];
    proof {
        assert(y@ =~= seq!['Y']);
        assert(yes@ =~= seq!['Y', 'E', 'S']);
        assert(tr@ =~= seq!['T', 'R', 'U', 'E']);
        assert(one@ =~= seq!['1']);
    }
    eq_chars(&u, &y) || eq_chars(&u, &yes) || eq_chars(&u, &tr) || eq_chars(&u, &one)
}

/// What an optional integer cell denotes: an optional sign and digits,
/// surrounded by whitespace, in the machine range; anything else (a
/// blank cell included) denotes nothing.
pub open spec fn int_cell_value(neg: bool, ds: Seq<char>) -> Option<i32> {
    if ds.len() > 0 && (forall|i: int|
        0 <= i < ds.len() ==> crate::ratelimit::is_digit(#[trigger] ds[i])) {
        let m = crate::ratelimit::digits_val(ds);
        let v = if neg {
            -m
        } else {
            m
        };
        if i32::MIN <= v <= i32::MAX {
            Some(v as i32)
        } else {
            None
        }
    } else {
        None
    }
}

pub open spec fn spec_parse_i32(s: Seq<char>) -> Option<i32> {
    let t = trimmed(s);
    if t.len() == 0 {
        None
    } else {
        let neg = t[0] == '-';
        let signed = t[0] == '-' || t[0] == '+';
        int_cell_value(
            neg,
            if signed {
                t.drop_first()
            } else {
                t
            },
        )
    }
}

/// Read an optional integer cell.
pub fn parse_i32_opt(s: &str) -> (r: Option<i32>)
    ensures
        r == spec_parse_i32(s@),
{
    let t = trim_str(s);
    let n = t.unicode_len();
    if n == 0 {
        return None;
    }
    let c0 = t.get_char(0);
    let neg = c0 == '-';
    let signed = c0 == '-' || c0 == '+';
    let start: usize = if signed {
        1
    } else {
        0
    };
    if start == n {
        return None;
    }
    let ghost ds = if signed {
        t@.drop_first()
    } else {
        t@
    };
    proof {
        assert(ds.len() == n - start);
        assert(forall|k: int| 0 <= k < ds.len() ==> ds[k] == t@[k + start]);
    }
    let mut val: u64 = 0;
    let mut i: usize = start;
    while i < n
        invariant
            start <= i <= n,
            n == t@.len(),
            n > 0,
            t@ == trimmed(s@),
            neg == (t@[0] == '-'),
            signed == (t@[0] == '-' || t@[0] == '+'),
            start == if signed {
                1int
            } else {
                0int
            },
            ds == if signed {
                t@.drop_first()
            } else {
                t@
            },
            ds.len() == n - start,
            forall|k: int| 0 <= k < ds.len() ==> ds[k] == t@[k + start],
            forall|k: int| start <= k < i ==> crate::ratelimit::is_digit(#[trigger] t@[k]),
            val == crate::ratelimit::digits_val(ds.take(i - start)),
            val <= 0x8000_0000,
        decreases n - i,
    {
        let c = t.get_char(i);
        if !crate::ratelimit::is_digit_char(c) {
            proof {
                assert(!crate::ratelimit::is_digit(ds[i - start]));
                assert(int_cell_value(neg, ds) is None);
                assert(spec_parse_i32(s@) == int_cell_value(neg, ds));
            }
            return None;
        }
        proof {
            crate::ratelimit::lemma_digits_val_step(ds, i - start);
        }
        let d = (c as u32) as u64 - 48;
        if val > 214_748_364 || (val == 214_748_364 && d > 8) {
            // the magnitude exceeds the machine range whatever follows
            proof {
                if forall|k: int| 0 <= k < ds.len() ==> crate::ratelimit::is_digit(
                    #[trigger] ds[k],
                ) {
                    crate::ratelimit::lemma_digits_val_prefix_le(ds, i - start + 1);
                }
                assert(int_cell_value(neg, ds) is None);
                assert(spec_parse_i32(s@) == int_cell_value(neg, ds));
            }
            return None;
        }
        val = val * 10 + d;
        i += 1;
    }
    proof {
        assert(ds.take(n - start) =~= ds);
    }
    proof {
        assert(spec_parse_i32(s@) == int_cell_value(neg, ds));
    }
    if neg {
        let v = -(val as i64);
        Some(v as i32)
    } else {
        if val <= 0x7FFF_FFFF {
            Some(val as i32)
        } else {
            None
        }
    }
}


/// The cell at a column, trimmed; a missing cell reads as empty.
pub open spec fn cell_of(row: Seq<String>, i: int) -> Seq<char> {
    if 0 <= i < row.len() {
        trimmed(row[i]@)
    } else {
        Seq::empty()
    }
}

/// The cell at a column, untouched; a missing cell reads as empty.
pub open spec fn raw_cell(row: Seq<String>, i: int) -> Seq<char> {
    if 0 <= i < row.len() {
        row[i]@
    } else {
        Seq::empty()
    }
}

/// The first column whose trimmed header is exactly `name`.
pub open spec fn header_pos(h: Seq<String>, name: Seq<char>) -> Option<int>
    decreases h.len(),
{
    if h.len() == 0 {
        None
    } else if trimmed(h[0]@) == name {
        Some(0int)
    } else {
        match header_pos(h.drop_first(), name) {
            Some(i) => Some(i + 1),
            None => None,
        }
    }
}

/// Read a cell by column index, trimmed; missing cells read as empty.
pub fn get_cell(row: &[String], idx: usize) -> (r: String)
    ensures
        r@ == cell_of(row@, idx as int),
{
    if idx < row.len() {
        String::from_str(trim_str(row[idx].as_str()))
    } else {
        let r = String::new();
        proof {
            assert(r@ =~= Seq::<char>::empty());
        }
        r
    }
}

/// Read a yes/no cell by column index; missing cells read as no.
fn yn_cell(row: &Vec<String>, idx: usize) -> (r: bool)
    ensures
        r == spec_yn(raw_cell(row@, idx as int)),
{
    if idx < row.len() {
        parse_yn(row[idx].as_str())
    } else {
        proof {
            assert(trimmed(Seq::<char>::empty()) =~= Seq::<char>::empty());
            assert(upper_seq(Seq::<char>::empty()) =~= Seq::<char>::empty());
        }
        false
    }
}

/// Whether a cell has anything in it once trimmed.
fn cell_nonempty(row: &Vec<String>, idx: usize) -> (r: bool)
    ensures
        r == (cell_of(row@, idx as int).len() != 0),
{
    if idx < row.len() {
        trim_str(row[idx].as_str()).unicode_len() > 0
    } else {
        false
    }
}

/// One client row from the sheet mapped into a strongly typed struct.
#[derive(Debug, Clone)]
pub struct Client {
    pub me: String,
    pub returns_printed: bool,
    pub returns_sent: bool,
    pub client_id: String,
    pub client_name: String,
    pub email_temp1: String,
    pub email_temp2: String,
    pub comment: String,
    pub estimate_quarterlies: String,
    pub tax_return: String,
    pub signature: String,
    pub signature_template: String,
    pub require_kba: bool,
    pub invoice: String,
    pub invoice_amount: String,
    pub invoice_template: String,
    pub closer: String,
    pub pipeline: String,
    pub seal: String,
    pub year_to_seal: String,
    /// 1-based row index in the sheet (the header is row 1, the first
    /// data row is 2).
    pub row_index: usize,
}

/// Compose a per-client URL from a base, the client id and a suffix.
pub fn join_url(base: &str, id: &str, post: &str) -> (r: String)
    ensures
        r@ == base@ + id@ + post@,
{
    let mut out = String::from_str(base);
    out.append(id);
    out.append(post);
    out
}

impl Client {
    /// The non-blank email templates, trimmed, first slot first.
    pub fn email_template(&self) -> (r: Vec<String>)
        ensures
            r.deep_view() == (if trimmed(self.email_temp1@).len() > 0 {
                seq![trimmed(self.email_temp1@)]
            } else {
                Seq::<Seq<char>>::empty()
            }) + (if trimmed(self.email_temp2@).len() > 0 {
                seq![trimmed(self.email_temp2@)]
            } else {
                Seq::<Seq<char>>::empty()
            }),
    {
        let mut templates: Vec<String> = Vec::new();
        let t1 = trim_str(self.email_temp1.as_str());
        if t1.unicode_len() > 0 {
            templates.push(String::from_str(t1));
        }
        let t2 = trim_str(self.email_temp2.as_str());
        if t2.unicode_len() > 0 {
            templates.push(String::from_str(t2));
        }
        proof {
            assert(templates.deep_view() =~~= (if trimmed(self.email_temp1@).len() > 0 {
                seq![trimmed(self.email_temp1@)]
            } else {
                Seq::<Seq<char>>::empty()
            }) + (if trimmed(self.email_temp2@).len() > 0 {
                seq![trimmed(self.email_temp2@)]
            } else {
                Seq::<Seq<char>>::empty()
            }));
        }
        templates
    }

    /// The estimate/quarterlies note, trimmed, when non-blank.
    pub fn est_qtr(&self) -> (r: Vec<String>)
        ensures
            r.deep_view() == (if trimmed(self.estimate_quarterlies@).len() > 0 {
                seq![trimmed(self.estimate_quarterlies@)]
            } else {
                Seq::<Seq<char>>::empty()
            }),
    {
        let mut estimates: Vec<String> = Vec::new();
        let t = trim_str(self.estimate_quarterlies.as_str());
        if t.unicode_len() > 0 {
            estimates.push(String::from_str(t));
        }
        proof {
            assert(estimates.deep_view() =~~= (if trimmed(self.estimate_quarterlies@).len() > 0 {
                seq![trimmed(self.estimate_quarterlies@)]
            } else {
                Seq::<Seq<char>>::empty()
            }));
        }
        estimates
    }
}

/// Loading clients failed: a required column header is missing.
#[derive(Debug)]
pub enum StoreError {
    MissingHeader(String),
}

impl StoreError {
    /// A human-readable account of the error.
    pub fn message(&self) -> (r: String)
        ensures
            match self {
                StoreError::MissingHeader(m) => r@ == "Missing expected header '"@ + m@ + "'"@,
            },
    {
        match self {
            StoreError::MissingHeader(m) => {
                let mut out = String::from_str("Missing expected header '");
                out.append(m.as_str());
                out.append("'");
                out
            },
        }
    }
}

/// In-memory store of all clients for the current run.
#[derive(Debug)]
pub struct ClientStore {
    pub clients: Vec<Client>,
    /// 1-based column index of the "Seal" column (0 before loading).
    pub seal_column_index: usize,
    /// 1-based column index of the "ME" column (0 before loading).
    pub me_column_index: usize,
}

/// Where the twenty required columns sit in the header row.
pub open spec fn cols_ok(
    h: Seq<String>,
    me: int,
    rp: int,
    rs: int,
    cid: int,
    cname: int,
    e1: int,
    e2: int,
    com: int,
    est: int,
    tax: int,
    sig: int,
    sigt: int,
    kba: int,
    inv: int,
    iamt: int,
    itpl: int,
    clo: int,
    pip: int,
    seal: int,
    y2s: int,
) -> bool {
    &&& header_pos(h, "ME"@) == Some(me)
    &&& header_pos(h, "Returns Printed?"@) == Some(rp)
    &&& header_pos(h, "Returns Sent?"@) == Some(rs)
    &&& header_pos(h, "ClientID"@) == Some(cid)
    &&& header_pos(h, "ClientName"@) == Some(cname)
    &&& header_pos(h, "EmailTemp1"@) == Some(e1)
    &&& header_pos(h, "EmailTemp2"@) == Some(e2)
    &&& header_pos(h, "Comment"@) == Some(com)
    &&& header_pos(h, "Estimate/Quarterlies"@) == Some(est)
    &&& header_pos(h, "TaxReturn"@) == Some(tax)
    &&& header_pos(h, "Signature"@) == Some(sig)
    &&& header_pos(h, "SignatureTemplate"@) == Some(sigt)
    &&& header_pos(h, "RequireKBA"@) == Some(kba)
    &&& header_pos(h, "Invoice"@) == Some(inv)
    &&& header_pos(h, "InvoiceAmount"@) == Some(iamt)
    &&& header_pos(h, "InvoiceTemplate"@) == Some(itpl)
    &&& header_pos(h, "Closer"@) == Some(clo)
    &&& header_pos(h, "Pipeline"@) == Some(pip)
    &&& header_pos(h, "Seal"@) == Some(seal)
    &&& header_pos(h, "YearToSeal"@) == Some(y2s)
}

/// What a loaded client holds, given the header row, its data row and
/// its 1-based sheet row number.
pub open spec fn client_matches_row(c: Client, h: Seq<String>, row: Seq<String>, sheet_row: int) -> bool {
    &&& c.me@ == cell_of(row, header_pos(h, "ME"@).unwrap())
    &&& c.returns_printed == spec_yn(raw_cell(row, header_pos(h, "Returns Printed?"@).unwrap()))
    &&& c.returns_sent == spec_yn(raw_cell(row, header_pos(h, "Returns Sent?"@).unwrap()))
    &&& c.client_id@ == cell_of(row, header_pos(h, "ClientID"@).unwrap())
    &&& c.client_name@ == cell_of(row, header_pos(h, "ClientName"@).unwrap())
    &&& c.email_temp1@ == cell_of(row, header_pos(h, "EmailTemp1"@).unwrap())
    &&& c.email_temp2@ == cell_of(row, header_pos(h, "EmailTemp2"@).unwrap())
    &&& c.comment@ == cell_of(row, header_pos(h, "Comment"@).unwrap())
    &&& c.estimate_quarterlies@ == cell_of(row, header_pos(h, "Estimate/Quarterlies"@).unwrap())
    &&& c.tax_return@ == cell_of(row, header_pos(h, "TaxReturn"@).unwrap())
    &&& c.signature@ == cell_of(row, header_pos(h, "Signature"@).unwrap())
    &&& c.signature_template@ == cell_of(row, header_pos(h, "SignatureTemplate"@).unwrap())
    &&& c.require_kba == spec_yn(raw_cell(row, header_pos(h, "RequireKBA"@).unwrap()))
    &&& c.invoice@ == cell_of(row, header_pos(h, "Invoice"@).unwrap())
    &&& c.invoice_amount@ == cell_of(row, header_pos(h, "InvoiceAmount"@).unwrap())
    &&& c.invoice_template@ == cell_of(row, header_pos(h, "InvoiceTemplate"@).unwrap())
    &&& c.closer@ == cell_of(row, header_pos(h, "Closer"@).unwrap())
    &&& c.pipeline@ == cell_of(row, header_pos(h, "Pipeline"@).unwrap())
    &&& c.seal@ == cell_of(row, header_pos(h, "Seal"@).unwrap())
    &&& c.year_to_seal@ == cell_of(row, header_pos(h, "YearToSeal"@).unwrap())
    &&& c.row_index == sheet_row
}

/// The first required header, in reading order, that the header row
/// lacks.
pub open spec fn spec_first_missing(h: Seq<String>) -> Option<Seq<char>> {
    if header_pos(h, "ME"@) is None {
        Some("ME"@)
    } else if header_pos(h, "Returns Printed?"@) is None {
        Some("Returns Printed?"@)
    } else if header_pos(h, "Returns Sent?"@) is None {
        Some("Returns Sent?"@)
    } else if header_pos(h, "ClientID"@) is None {
        Some("ClientID"@)
    } else if header_pos(h, "ClientName"@) is None {
        Some("ClientName"@)
    } else if header_pos(h, "EmailTemp1"@) is None {
        Some("EmailTemp1"@)
    } else if header_pos(h, "EmailTemp2"@) is None {
        Some("EmailTemp2"@)
    } else if header_pos(h, "Comment"@) is None {
        Some("Comment"@)
    } else if header_pos(h, "Estimate/Quarterlies"@) is None {
        Some("Estimate/Quarterlies"@)
    } else if header_pos(h, "TaxReturn"@) is None {
        Some("TaxReturn"@)
    } else if header_pos(h, "Signature"@) is None {
        Some("Signature"@)
    } else if header_pos(h, "SignatureTemplate"@) is None {
        Some("SignatureTemplate"@)
    } else if header_pos(h, "RequireKBA"@) is None {
        Some("RequireKBA"@)
    } else if header_pos(h, "Invoice"@) is None {
        Some("Invoice"@)
    } else if header_pos(h, "InvoiceAmount"@) is None {
        Some("InvoiceAmount"@)
    } else if header_pos(h, "InvoiceTemplate"@) is None {
        Some("InvoiceTemplate"@)
    } else if header_pos(h, "Closer"@) is None {
        Some("Closer"@)
    } else if header_pos(h, "Pipeline"@) is None {
        Some("Pipeline"@)
    } else if header_pos(h, "Seal"@) is None {
        Some("Seal"@)
    } else if header_pos(h, "YearToSeal"@) is None {
        Some("YearToSeal"@)
    } else {
        None
    }
}

/// The index of the first data row at or after `i` whose ME cell is
/// blank, or the number of rows when none is.
pub open spec fn first_blank_me(values: Seq<Vec<String>>, c_me: int, i: int) -> int
    decreases values.len() - i,
{
    if i < 0 || i >= values.len() {
        values.len() as int
    } else if cell_of(values[i]@, c_me).len() == 0 {
        i
    } else {
        first_blank_me(values, c_me, i + 1)
    }
}

/// A store loaded from `values`: the column indices recorded 1-based,
/// and one client per data row down to the first blank ME cell.
pub open spec fn store_matches_values(store: ClientStore, values: Seq<Vec<String>>) -> bool {
    if values.len() == 0 {
        store.clients@.len() == 0 && store.seal_column_index == 0 && store.me_column_index == 0
    } else {
        let h = values[0]@;
        let me = header_pos(h, "ME"@).unwrap();
        &&& spec_first_missing(h) is None
        &&& store.me_column_index == me + 1
        &&& store.seal_column_index == header_pos(h, "Seal"@).unwrap() + 1
        &&& store.clients@.len() == first_blank_me(values, me, 1) - 1
        &&& forall|j: int|
            0 <= j < store.clients@.len() ==> client_matches_row(
                #[trigger] store.clients@[j],
                h,
                values[j + 1]@,
                j + 2,
            )
    }
}

/// Find a required header column, or say which one is missing.
fn idx_of(header: &Vec<String>, name: &str) -> (r: Result<usize, StoreError>)
    ensures
        match r {
            Ok(i) => header_pos(header@, name@) == Some(i as int) && (i as int) < header@.len(),
            Err(e) => header_pos(header@, name@) is None && (e matches StoreError::MissingHeader(m)
                && m@ == name@),
        },
{
    let mut i: usize = 0;
    while i < header.len()
        invariant
            i <= header@.len(),
            forall|k: int| 0 <= k < i ==> trimmed(#[trigger] header@[k]@) != name@,
        decreases header@.len() - i,
    {
        if str_eq(trim_str(header[i].as_str()), name) {
            proof {
                lemma_header_pos_at(header@, name@, i as int);
            }
            return Ok(i);
        }
        i += 1;
    }
    proof {
        lemma_header_pos_none(header@, name@);
    }
    Err(StoreError::MissingHeader(String::from_str(name)))
}

/// A run of non-matching headers followed by a match pins the position
/// down.
proof fn lemma_header_pos_at(h: Seq<String>, name: Seq<char>, i: int)
    requires
        0 <= i < h.len(),
        forall|k: int| 0 <= k < i ==> trimmed(#[trigger] h[k]@) != name,
        trimmed(h[i]@) == name,
    ensures
        header_pos(h, name) == Some(i),
    decreases i,
{
    if i > 0 {
        lemma_header_pos_at(h.drop_first(), name, i - 1);
    }
}

/// With no matching header anywhere there is no position.
proof fn lemma_header_pos_none(h: Seq<String>, name: Seq<char>)
    requires
        forall|k: int| 0 <= k < h.len() ==> trimmed(#[trigger] h[k]@) != name,
    ensures
        header_pos(h, name) is None,
    decreases h.len(),
{
    if h.len() > 0 {
        lemma_header_pos_none(h.drop_first(), name);
    }
}

/// A run of non-blank ME cells followed by a blank one (or the end)
/// pins the stopping row down.
proof fn lemma_first_blank_at(values: Seq<Vec<String>>, c_me: int, lo: int, k: int)
    requires
        0 <= lo <= k <= values.len(),
        forall|j: int| lo <= j < k ==> cell_of(#[trigger] values[j]@, c_me).len() != 0,
        k < values.len() ==> cell_of(values[k]@, c_me).len() == 0,
    ensures
        first_blank_me(values, c_me, lo) == if k < values.len() {
            k
        } else {
            values.len() as int
        },
    decreases k - lo,
{
    if lo < k {
        lemma_first_blank_at(values, c_me, lo + 1, k);
    }
}

impl ClientStore {
    /// Create an empty store.
    pub fn new() -> (r: Self)
        ensures
            r.clients@.len() == 0,
            r.seal_column_index == 0,
            r.me_column_index == 0,
    {
        ClientStore { clients: Vec::new(), seal_column_index: 0, me_column_index: 0 }
    }

    /// Build a store from a sheet's `values` matrix: headers in the
    /// first row, one client per following row, stopping at the first
    /// blank ME cell. A missing required header names itself in the
    /// error; an empty matrix loads an empty store.
    pub fn from_sheet_values(values: &[Vec<String>]) -> (r: Result<Self, StoreError>)
        ensures
            match r {
                Ok(store) => store_matches_values(store, values@),
                Err(e) => values@.len() > 0 && (e matches StoreError::MissingHeader(m)
                    && spec_first_missing(values@[0]@) == Some(m@)),
            },
    {
        if values.len() == 0 {
            return Ok(Self::new());
        }
        let header = &values[0];
        let c_me = match idx_of(header, "ME") {
            Ok(i) => i,
            Err(e) => {
                return Err(e);
            },
        };
        let c_rp = match idx_of(header, "Returns Printed?") {
            Ok(i) => i,
            Err(e) => {
                return Err(e);
            },
        };
        let c_rs = match idx_of(header, "Returns Sent?") {
            Ok(i) => i,
            Err(e) => {
                return Err(e);
            },
        };
        let c_cid = match idx_of(header, "ClientID") {
            Ok(i) => i,
            Err(e) => {
                return Err(e);
            },
        };
        let c_cname = match idx_of(header, "ClientName") {
            Ok(i) => i,
            Err(e) => {
                return Err(e);
            },
        };
        let c_e1 = match idx_of(header, "EmailTemp1") {
            Ok(i) => i,
            Err(e) => {
                return Err(e);
            },
        };
        let c_e2 = match idx_of(header, "EmailTemp2") {
            Ok(i) => i,
            Err(e) => {
                return Err(e);
            },
        };
        let c_com = match idx_of(header, "Comment") {
            Ok(i) => i,
            Err(e) => {
                return Err(e);
            },
        };
        let c_est = match idx_of(header, "Estimate/Quarterlies") {
            Ok(i) => i,
            Err(e) => {
                return Err(e);
            },
        };
        let c_tax = match idx_of(header, "TaxReturn") {
            Ok(i) => i,
            Err(e) => {
                return Err(e);
            },
        };
        let c_sig = match idx_of(header, "Signature") {
            Ok(i) => i,
            Err(e) => {
                return Err(e);
            },
        };
        let c_sigt = match idx_of(header, "SignatureTemplate") {
            Ok(i) => i,
            Err(e) => {
                return Err(e);
            },
        };
        let c_kba = match idx_of(header, "RequireKBA") {
            Ok(i) => i,
            Err(e) => {
                return Err(e);
            },
        };
        let c_inv = match idx_of(header, "Invoice") {
            Ok(i) => i,
            Err(e) => {
                return Err(e);
            },
        };
        let c_iamt = match idx_of(header, "InvoiceAmount") {
            Ok(i) => i,
            Err(e) => {
                return Err(e);
            },
        };
        let c_itpl = match idx_of(header, "InvoiceTemplate") {
            Ok(i) => i,
            Err(e) => {
                return Err(e);
            },
        };
        let c_clo = match idx_of(header, "Closer") {
            Ok(i) => i,
            Err(e) => {
                return Err(e);
            },
        };
        let c_pip = match idx_of(header, "Pipeline") {
            Ok(i) => i,
            Err(e) => {
                return Err(e);
            },
        };
        let c_seal = match idx_of(header, "Seal") {
            Ok(i) => i,
            Err(e) => {
                return Err(e);
            },
        };
        let c_y2s = match idx_of(header, "YearToSeal") {
            Ok(i) => i,
            Err(e) => {
                return Err(e);
            },
        };
        let n = values.len();
        // find the first data row with a blank ME cell
        let mut stop: usize = 1;
        while stop < n && cell_nonempty(&values[stop], c_me)
            invariant
                1 <= stop <= n,
                n == values@.len(),
                forall|j: int|
                    1 <= j < stop ==> cell_of(#[trigger] values@[j]@, c_me as int).len() != 0,
            decreases n - stop,
        {
            stop += 1;
        }
        proof {
            lemma_first_blank_at(values@, c_me as int, 1, stop as int);
        }
        let mut clients: Vec<Client> = Vec::new();
        let mut k: usize = 1;
        while k < stop
            invariant
                1 <= k <= stop <= n,
                n == values@.len(),
                cols_ok(
                    values@[0]@,
                    c_me as int,
                    c_rp as int,
                    c_rs as int,
                    c_cid as int,
                    c_cname as int,
                    c_e1 as int,
                    c_e2 as int,
                    c_com as int,
                    c_est as int,
                    c_tax as int,
                    c_sig as int,
                    c_sigt as int,
                    c_kba as int,
                    c_inv as int,
                    c_iamt as int,
                    c_itpl as int,
                    c_clo as int,
                    c_pip as int,
                    c_seal as int,
                    c_y2s as int,
                ),
                clients@.len() == k - 1,
                forall|j: int|
                    0 <= j < clients@.len() ==> client_matches_row(
                        #[trigger] clients@[j],
                        values@[0]@,
                        values@[j + 1]@,
                        j + 2,
                    ),
            decreases stop - k,
        {
            let row = &values[k];
            let client = Client {
                me: get_cell(row.as_slice(), c_me),
                returns_printed: yn_cell(row, c_rp),
                returns_sent: yn_cell(row, c_rs),
                client_id: get_cell(row.as_slice(), c_cid),
                client_name: get_cell(row.as_slice(), c_cname),
                email_temp1: get_cell(row.as_slice(), c_e1),
                email_temp2: get_cell(row.as_slice(), c_e2),
                comment: get_cell(row.as_slice(), c_com),
                estimate_quarterlies: get_cell(row.as_slice(), c_est),
                tax_return: get_cell(row.as_slice(), c_tax),
                signature: get_cell(row.as_slice(), c_sig),
                signature_template: get_cell(row.as_slice(), c_sigt),
                require_kba: yn_cell(row, c_kba),
                invoice: get_cell(row.as_slice(), c_inv),
                invoice_amount: get_cell(row.as_slice(), c_iamt),
                invoice_template: get_cell(row.as_slice(), c_itpl),
                closer: get_cell(row.as_slice(), c_clo),
                pipeline: get_cell(row.as_slice(), c_pip),
                seal: get_cell(row.as_slice(), c_seal),
                year_to_seal: get_cell(row.as_slice(), c_y2s),
                row_index: k + 1,
            };
            proof {
                assert(client_matches_row(client, values@[0]@, values@[k as int]@, k + 1));
            }
            clients.push(client);
            k += 1;
        }
        let hn = header.len();
        proof {
            assert(c_seal < hn && c_me < hn);
        }
        Ok(ClientStore { clients, seal_column_index: c_seal + 1, me_column_index: c_me + 1 })
    }

    /// Clear and reload this store from a sheet's `values` matrix; on a
    /// missing header the store is left as it was.
    pub fn reload_from_sheet(&mut self, values: &[Vec<String>]) -> (r: Result<(), StoreError>)
        ensures
            match r {
                Ok(()) => store_matches_values(*final (self), values@),
                Err(e) => *final (self) == *old(self) && values@.len() > 0 && (e matches
                    StoreError::MissingHeader(m) && spec_first_missing(values@[0]@) == Some(m@)),
            },
    {
        match Self::from_sheet_values(values) {
            Ok(s) => {
                *self = s;
                Ok(())
            },
            Err(e) => Err(e),
        }
    }
}

} // verus!
