use vstd::prelude::*;

use crate::text::str_eq;

verus! {

/// The model of a row: the value of each column, by column name.
pub type RowMap = Map<Seq<char>, Seq<char>>;

/// The map that results from inserting the pairs of `es` in order, a later
/// pair for a key replacing an earlier one.
pub open spec fn entries_map(es: Seq<(String, String)>) -> RowMap
    decreases es.len(),
{
    if es.len() == 0 {
        Map::empty()
    } else {
        entries_map(es.drop_last()).insert(es.last().0@, es.last().1@)
    }
}

/// One record of a table: values by column name.
#[derive(Debug, Clone)]
pub struct Row {
    entries: Vec<(String, String)>,
}

impl View for Row {
    type V = RowMap;

    closed spec fn view(&self) -> RowMap {
        entries_map(self.entries@)
    }
}

proof fn lemma_entries_map_tail(es: Seq<(String, String)>, i: int, k: Seq<char>)
    requires
        0 <= i <= es.len(),
        forall|j: int| i <= j < es.len() ==> (#[trigger] es[j]).0@ != k,
    ensures
        entries_map(es).contains_key(k) == entries_map(es.take(i)).contains_key(k),
        entries_map(es).contains_key(k) ==> entries_map(es)[k] == entries_map(es.take(i))[k],
    decreases es.len() - i,
{
    if i < es.len() {
        lemma_entries_map_tail(es.drop_last(), i, k);
        assert(es.drop_last().take(i) =~= es.take(i));
    } else {
        assert(es.take(i) =~= es);
    }
}

impl Row {
    /// A row without columns.
    pub fn new() -> (r: Row)
        ensures
            r@ == Map::<Seq<char>, Seq<char>>::empty(),
    {
        Row { entries: Vec::new() }
    }

    /// Sets the value of column `key`.
    pub fn insert(&mut self, key: String, value: String)
        ensures
            final(self)@ == old(self)@.insert(key@, value@),
    {
        let ghost old_entries = self.entries@;
        self.entries.push((key, value));
        assert(self.entries@.drop_last() =~= old_entries);
    }

    /// The value of column `key`, if the row has it.
    pub fn get(&self, key: &str) -> (r: Option<&String>)
        ensures
            match r {
                Some(v) => self@.contains_key(key@) && self@[key@] == v@,
                None => !self@.contains_key(key@),
            },
    {
        let ghost es = self.entries@;
        let mut i = self.entries.len();
        while i > 0
            invariant
                i <= es.len(),
                es == self.entries@,
                forall|j: int| i <= j < es.len() ==> (#[trigger] es[j]).0@ != key@,
            decreases i,
        {
            let ghost before = i as int;
            i = i - 1;
            if str_eq(self.entries[i].0.as_str(), key) {
                proof {
                    lemma_entries_map_tail(es, before, key@);
                    assert(es.take(before).drop_last() =~= es.take(i as int));
                    assert(es.take(before).last() == es[i as int]);
                }
                return Some(&self.entries[i].1);
            }
        }
        proof {
            lemma_entries_map_tail(es, 0, key@);
            assert(es.take(0) =~= Seq::<(String, String)>::empty());
        }
        None
    }
}

/// The value of column `key` of `row`, if any.
pub open spec fn lookup(row: RowMap, key: Seq<char>) -> Option<Seq<char>> {
    if row.contains_key(key) {
        Some(row[key])
    } else {
        None
    }
}

// ------------------------------------------------------------------------
// Tables read from CSV text.
// ------------------------------------------------------------------------
/// The header fields and the records (each a list of fields) that the CSV
/// reader of the `csv` crate, in its default configuration (a header row,
/// `,` as delimiter, `"` as quote, records of equal length), reads from
/// `text`, or the text of the first error it reports.
pub uninterp spec fn csv_table(text: Seq<char>) -> Result<
    (Seq<Seq<char>>, Seq<Seq<Seq<char>>>),
    Seq<char>,
>;

pub open spec fn strings_view(v: Seq<String>) -> Seq<Seq<char>> {
    v.map_values(|s: String| s@)
}

pub open spec fn records_view(v: Seq<Vec<String>>) -> Seq<Seq<Seq<char>>> {
    v.map_values(|r: Vec<String>| strings_view(r@))
}

/// Reads all of `text` with `csv::Reader::from_reader`: the header row
/// (`Reader::headers`) and every record after it (`Reader::records`), each
/// field as a string; or the `Display` text of the first `csv::Error`.
/// Claimed: the result is `csv_table` of the text, nothing more.
#[verifier::external_body]
fn read_csv_table(text: &str) -> (r: Result<(Vec<String>, Vec<Vec<String>>), String>)
    ensures
        match r {
            Ok((h, rs)) => csv_table(text@) == Ok::<_, Seq<char>>(
                (strings_view(h@), records_view(rs@)),
            ),
            Err(e) => csv_table(text@) == Err::<(Seq<Seq<char>>, Seq<Seq<Seq<char>>>), _>(e@),
        },
{
    let mut reader = csv::Reader::from_reader(text.as_bytes());
    let headers: Vec<String> = match reader.headers() {
        Ok(h) => h.iter().map(|f| f.to_string()).collect(),
        Err(e) => return Err(e.to_string()),
    };
    let mut records: Vec<Vec<String>> = Vec::new();
    for record in reader.records() {
        match record {
            Ok(rec) => records.push(rec.iter().map(|f| f.to_string()).collect()),
            Err(e) => return Err(e.to_string()),
        }
    }
    Ok((headers, records))
}

/// The row that pairs the first `n` headers with the first `n` fields.
pub open spec fn record_map(h: Seq<Seq<char>>, r: Seq<Seq<char>>, n: int) -> RowMap
    decreases n,
{
    if n <= 0 {
        Map::empty()
    } else {
        record_map(h, r, n - 1).insert(h[n - 1], r[n - 1])
    }
}

/// The row of a record: each field under the header at its position (as
/// many as both have), a later duplicate header replacing an earlier one.
pub open spec fn row_of(h: Seq<Seq<char>>, r: Seq<Seq<char>>) -> RowMap {
    record_map(h, r, if h.len() < r.len() { h.len() as int } else { r.len() as int })
}

/// The rows of a table.
pub open spec fn table_rows(h: Seq<Seq<char>>, rs: Seq<Seq<Seq<char>>>) -> Seq<RowMap> {
    rs.map_values(|r: Seq<Seq<char>>| row_of(h, r))
}

pub open spec fn rows_view(rows: Seq<Row>) -> Seq<RowMap> {
    rows.map_values(|r: Row| r@)
}

/// The rows read from a CSV text; no text gives no rows.
pub open spec fn spec_load_csv(text: Option<Seq<char>>) -> Result<Seq<RowMap>, Seq<char>> {
    match text {
        None => Ok(Seq::empty()),
        Some(t) => match csv_table(t) {
            Ok((h, rs)) => Ok(table_rows(h, rs)),
            Err(e) => Err(e),
        },
    }
}

pub open spec fn opt_text(o: Option<&str>) -> Option<Seq<char>> {
    match o {
        Some(s) => Some(s@),
        None => None,
    }
}

/// The row of a record under the given headers.
pub fn record_to_row(headers: &Vec<String>, record: &Vec<String>) -> (row: Row)
    ensures
        row@ == row_of(strings_view(headers@), strings_view(record@)),
{
    let n = if headers.len() < record.len() {
        headers.len()
    } else {
        record.len()
    };
    let mut row = Row::new();
    let mut i: usize = 0;
    while i < n
        invariant
            i <= n,
            n <= headers.len(),
            n <= record.len(),
            row@ == record_map(strings_view(headers@), strings_view(record@), i as int),
        decreases n - i,
    {
        row.insert(headers[i].clone(), record[i].clone());
        i = i + 1;
    }
    row
}

/// The rows of a table given as header fields and records.
pub fn rows_from_table(headers: &Vec<String>, records: &Vec<Vec<String>>) -> (rows: Vec<Row>)
    ensures
        rows_view(rows@) == table_rows(strings_view(headers@), records_view(records@)),
{
    let mut rows: Vec<Row> = Vec::new();
    let mut i: usize = 0;
    while i < records.len()
        invariant
            i <= records.len(),
            rows_view(rows@) == table_rows(strings_view(headers@), records_view(records@)).take(
                i as int,
            ),
        decreases records.len() - i,
    {
        let row = record_to_row(headers, &records[i]);
        let ghost prev = rows_view(rows@);
        assert(records_view(records@)[i as int] == strings_view(records@[i as int]@));
        rows.push(row);
        assert(rows_view(rows@) =~= prev.push(row@));
        i = i + 1;
        assert(rows_view(rows@) =~= table_rows(strings_view(headers@), records_view(records@)).take(
            i as int,
        ));
    }
    assert(table_rows(strings_view(headers@), records_view(records@)).take(
        records.len() as int,
    ) =~= table_rows(strings_view(headers@), records_view(records@)));
    rows
}

/// The rows of the CSV text `text`, or the text of the reader's error.
pub fn load_csv(text: &str) -> (r: Result<Vec<Row>, String>)
    ensures
        match (r, spec_load_csv(Some(text@))) {
            (Ok(rows), Ok(v)) => rows_view(rows@) == v,
            (Err(e), Err(v)) => e@ == v,
            _ => false,
        },
{
    match read_csv_table(text) {
        Ok((headers, records)) => Ok(rows_from_table(&headers, &records)),
        Err(e) => Err(e),
    }
}

fn load_optional(text: Option<&str>) -> (r: Result<Vec<Row>, String>)
    ensures
        match (r, spec_load_csv(opt_text(text))) {
            (Ok(rows), Ok(v)) => rows_view(rows@) == v,
            (Err(e), Err(v)) => e@ == v,
            _ => false,
        },
{
    match text {
        Some(t) => load_csv(t),
        None => {
            let rows: Vec<Row> = Vec::new();
            assert(rows_view(rows@) =~= Seq::<RowMap>::empty());
            Ok(rows)
        },
    }
}

/// The three tables the validator reads, and the names of the files that
/// were missing (their tables are empty, so the rules over them check
/// nothing).
#[derive(Debug, Clone)]
pub struct DataSet {
    pub pilotos: Vec<Row>,
    pub aeronaves: Vec<Row>,
    pub vuelos: Vec<Row>,
    pub missing: Vec<String>,
}

/// The model of a data set.
pub struct DataView {
    pub pilotos: Seq<RowMap>,
    pub aeronaves: Seq<RowMap>,
    pub vuelos: Seq<RowMap>,
    pub missing: Seq<Seq<char>>,
}

impl View for DataSet {
    type V = DataView;

    open spec fn view(&self) -> DataView {
        DataView {
            pilotos: rows_view(self.pilotos@),
            aeronaves: rows_view(self.aeronaves@),
            vuelos: rows_view(self.vuelos@),
            missing: strings_view(self.missing@),
        }
    }
}

pub open spec fn absent(name: Seq<char>, text: Option<Seq<char>>) -> Seq<Seq<char>> {
    if text is None {
        seq![name]
    } else {
        Seq::empty()
    }
}

/// The names of the files whose text is absent, in the order pilots,
/// aircraft, flights.
pub open spec fn missing_tables(
    pilotos: Option<Seq<char>>,
    aeronaves: Option<Seq<char>>,
    vuelos: Option<Seq<char>>,
) -> Seq<Seq<char>> {
    absent("pilotos.csv"@, pilotos) + absent("aeronaves.csv"@, aeronaves) + absent(
        "vuelos.csv"@,
        vuelos,
    )
}

/// The data set read from the CSV texts of pilots, aircraft and flights
/// (a missing text is an empty table, and its file is listed as missing),
/// or the first error, in that order.
pub open spec fn spec_load_data(
    pilotos: Option<Seq<char>>,
    aeronaves: Option<Seq<char>>,
    vuelos: Option<Seq<char>>,
) -> Result<DataView, Seq<char>> {
    match spec_load_csv(pilotos) {
        Err(e) => Err(e),
        Ok(p) => match spec_load_csv(aeronaves) {
            Err(e) => Err(e),
            Ok(a) => match spec_load_csv(vuelos) {
                Err(e) => Err(e),
                Ok(v) => Ok(
                    DataView {
                        pilotos: p,
                        aeronaves: a,
                        vuelos: v,
                        missing: missing_tables(pilotos, aeronaves, vuelos),
                    },
                ),
            },
        },
    }
}

/// Loads the tables of pilots, aircraft and flights from their CSV texts
/// (`None` where the file is absent).
pub fn load_data(pilotos: Option<&str>, aeronaves: Option<&str>, vuelos: Option<&str>) -> (r:
    Result<DataSet, String>)
    ensures
        match (r, spec_load_data(opt_text(pilotos), opt_text(aeronaves), opt_text(vuelos))) {
            (Ok(d), Ok(v)) => d@ == v,
            (Err(e), Err(v)) => e@ == v,
            _ => false,
        },
{
    let p = load_optional(pilotos)?;
    let a = load_optional(aeronaves)?;
    let v = load_optional(vuelos)?;
    let mut missing: Vec<String> = Vec::new();
    if pilotos.is_none() {
        missing.push(String::from_str("pilotos.csv"));
    }
    if aeronaves.is_none() {
        missing.push(String::from_str("aeronaves.csv"));
    }
    if vuelos.is_none() {
        missing.push(String::from_str("vuelos.csv"));
    }
    proof {
        reveal_strlit("pilotos.csv");
        reveal_strlit("aeronaves.csv");
        reveal_strlit("vuelos.csv");
    }
    assert(strings_view(missing@) =~= missing_tables(
        opt_text(pilotos),
        opt_text(aeronaves),
        opt_text(vuelos),
    ));
    Ok(DataSet { pilotos: p, aeronaves: a, vuelos: v, missing })
}

} // verus!
