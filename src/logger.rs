//! The two sinks of run records: a console line of `label: value` pairs,
//! and a durable CSV log whose bytes are handed out for storage.

use vstd::prelude::*;
use vstd::string::*;
use vstd::utf8::encode_utf8;

verus! {

/// The text of a sequence of strings.
pub open spec fn texts(v: Seq<String>) -> Seq<Seq<char>> {
    v.map_values(|s: String| s@)
}

/// The text of a sequence of string slices.
pub open spec fn str_texts<'a>(v: Seq<&'a str>) -> Seq<Seq<char>> {
    v.map_values(|s: &'a str| s@)
}

/// `label: value`.
pub open spec fn pair_text(label: Seq<char>, value: Seq<char>) -> Seq<char> {
    label + seq![':', ' '] + value
}

/// The separator between two pairs of a console line.
pub open spec fn separator() -> Seq<char> {
    seq![' ', '|', '|', ' ']
}

/// The first `n` pairs of labels and values, joined by the separator.
pub open spec fn render(labels: Seq<Seq<char>>, values: Seq<Seq<char>>, n: nat) -> Seq<char>
    decreases n,
{
    if n == 0 {
        seq![]
    } else if n == 1 {
        pair_text(labels[0], values[0])
    } else {
        render(labels, values, (n - 1) as nat) + separator() + pair_text(
            labels[n - 1],
            values[n - 1],
        )
    }
}

/// What the console sink emits for one record.
pub struct ConsoleLine {
    /// The record does not have one value per label: a warning precedes the line.
    pub mismatch: bool,
    /// The `label: value` pairs, as many as both sides have.
    pub text: String,
}

/// The console sink: renders records against a fixed list of labels.
pub struct LogConsole<'a> {
    labels: Vec<&'a str>,
}

impl<'a> LogConsole<'a> {
    /// The labels, as text.
    pub closed spec fn labels(&self) -> Seq<Seq<char>> {
        str_texts(self.labels@)
    }

    pub fn new(labels: Vec<&'a str>) -> (r: LogConsole<'a>)
        ensures
            r.labels() == str_texts(labels@),
    {
        LogConsole { labels }
    }

    /// The line for one record: its values paired with the labels in order,
    /// cut to the shorter of the two when their counts differ.
    pub fn log(&self, data: Vec<String>) -> (r: ConsoleLine)
        ensures
            r.mismatch == (self.labels().len() != data@.len()),
            r.text@ == render(
                self.labels(),
                texts(data@),
                if self.labels().len() <= data@.len() {
                    self.labels().len()
                } else {
                    data@.len()
                },
            ),
    {
        let mismatch = self.labels.len() != data.len();
        let n = if self.labels.len() <= data.len() {
            self.labels.len()
        } else {
            data.len()
        };
        let ghost ls = self.labels();
        let ghost vs = texts(data@);
        let mut text = String::new();
        let mut i: usize = 0;
        while i < n
            invariant
                n <= self.labels@.len(),
                n <= data@.len(),
                0 <= i <= n,
                ls == self.labels(),
                vs == texts(data@),
                text@ == render(ls, vs, i as nat),
            decreases n - i,
        {
            if i > 0 {
                let sep = " || ";
                proof {
                    reveal_strlit(" || ");
                }
                assert(sep@ =~= separator());
                text.append(sep);
            }
            assert(ls[i as int] == self.labels@[i as int]@);
            assert(vs[i as int] == data@[i as int]@);
            text.append(self.labels[i]);
            let colon = ": ";
            proof {
                reveal_strlit(": ");
            }
            assert(colon@ =~= seq![':', ' ']);
            text.append(colon);
            text.append(data[i].as_str());
            assert(text@ =~= render(ls, vs, (i + 1) as nat));
            i = i + 1;
        }
        ConsoleLine { mismatch, text }
    }
}

/// A field holds a delimiter, a quote or a line break, and is quoted.
pub open spec fn needs_quotes(f: Seq<char>) -> bool {
    exists|i: int| 0 <= i < f.len() && (f[i] == ',' || f[i] == '"' || f[i] == '\r' || f[i] == '\n')
}

/// A field with each quote doubled.
pub open spec fn double_quotes(f: Seq<char>) -> Seq<char>
    decreases f.len(),
{
    if f.len() == 0 {
        seq![]
    } else {
        double_quotes(f.drop_last()) + if f.last() == '"' {
            seq!['"', '"']
        } else {
            seq![f.last()]
        }
    }
}

/// One field as a CSV line holds it.
pub open spec fn csv_field(f: Seq<char>) -> Seq<char> {
    if needs_quotes(f) {
        seq!['"'] + double_quotes(f) + seq!['"']
    } else {
        f
    }
}

/// The fields of a record, each as a CSV line holds it, joined by commas.
pub open spec fn csv_fields(fields: Seq<Seq<char>>) -> Seq<char>
    decreases fields.len(),
{
    if fields.len() == 0 {
        seq![]
    } else if fields.len() == 1 {
        csv_field(fields[0])
    } else {
        csv_fields(fields.drop_last()) + seq![','] + csv_field(fields.last())
    }
}

/// The CSV line of one record, terminator included; a record that would
/// leave the line empty is written as an empty quoted field.
pub open spec fn csv_line(fields: Seq<Seq<char>>) -> Seq<char> {
    if csv_fields(fields).len() == 0 {
        seq!['"', '"', '\n']
    } else {
        csv_fields(fields) + seq!['\n']
    }
}

/// The bytes of the CSV line of one record.
pub open spec fn csv_record(fields: Seq<Seq<char>>) -> Seq<u8> {
    encode_utf8(csv_line(fields))
}

/// Relies on `csv::Writer::from_writer`, `write_record` and `into_inner`
/// writing one record into memory with the writer's defaults: comma
/// delimiter, `\n` terminator, quotes only where a field holds a comma, a
/// quote, CR or LF, quotes doubled inside, and `""` for an empty record.
/// A fresh writer accepts its first record of any length, and writing to
/// a `Vec` cannot fail, so a result always comes back.
#[verifier::external_body]
fn encode_record(fields: &Vec<String>) -> (r: Option<Vec<u8>>)
    ensures
        r is Some,
        r->Some_0@ == csv_record(texts(fields@)),
{
    let mut wtr = csv::Writer::from_writer(Vec::new());
    match wtr.write_record(fields) {
        Ok(()) => wtr.into_inner().ok(),
        Err(_) => None,
    }
}

/// The concatenated bytes of a sequence of records.
pub open spec fn csv_bytes(rows: Seq<Seq<Seq<char>>>) -> Seq<u8>
    decreases rows.len(),
{
    if rows.len() == 0 {
        seq![]
    } else {
        csv_bytes(rows.drop_last()) + csv_record(rows.last())
    }
}

/// The durable sink: a CSV log at `path` whose first row is the header.
/// Encoded rows wait in `pending` until they are taken for storage.
pub struct LogCSV {
    path: String,
    pending: Vec<u8>,
    rows: Ghost<Seq<Seq<Seq<char>>>>,
    taken: Ghost<Seq<u8>>,
}

impl LogCSV {
    /// Where the log is stored.
    pub closed spec fn path(&self) -> Seq<char> {
        self.path@
    }

    /// Every row logged so far, the header first.
    pub closed spec fn rows(&self) -> Seq<Seq<Seq<char>>> {
        self.rows@
    }

    /// The bytes encoded and not yet taken.
    pub closed spec fn pending(&self) -> Seq<u8> {
        self.pending@
    }

    /// The bytes already taken for storage.
    pub closed spec fn taken(&self) -> Seq<u8> {
        self.taken@
    }

    /// What was taken and what waits are together the encoding of every row.
    pub open spec fn wf(&self) -> bool {
        self.taken() + self.pending() == csv_bytes(self.rows())
    }

    /// A log at `path` whose header row is `labels`.
    pub fn new(path: String, labels: Vec<&str>) -> (r: LogCSV)
        ensures
            r.wf(),
            r.path() == path@,
            r.rows() == seq![str_texts(labels@)],
            r.taken() == Seq::<u8>::empty(),
            r.pending() == csv_record(str_texts(labels@)),
    {
        let mut header: Vec<String> = Vec::new();
        let mut i: usize = 0;
        while i < labels.len()
            invariant
                0 <= i <= labels@.len(),
                texts(header@) =~= str_texts(labels@).subrange(0, i as int),
            decreases labels@.len() - i,
        {
            let ghost prev = header@;
            header.push(labels[i].to_owned());
            assert(texts(header@) =~= texts(prev).push(labels@[i as int]@));
            i = i + 1;
        }
        assert(texts(header@) =~= str_texts(labels@));
        let pending = match encode_record(&header) {
            Some(bytes) => bytes,
            None => Vec::new(),
        };
        let ghost rows = seq![str_texts(labels@)];
        assert(rows.drop_last() =~= Seq::<Seq<Seq<char>>>::empty());
        assert(csv_bytes(rows.drop_last()) == Seq::<u8>::empty());
        assert(rows.last() == texts(header@));
        assert(pending@ =~= Seq::<u8>::empty() + csv_bytes(rows));
        LogCSV { path, pending, rows: Ghost(rows), taken: Ghost(Seq::empty()) }
    }

    /// Where the log is stored.
    pub fn path_str(&self) -> (r: &str)
        ensures
            r@ == self.path(),
    {
        self.path.as_str()
    }

    /// Appends one row after those already logged.
    pub fn log(&mut self, data: Vec<String>)
        requires
            old(self).wf(),
        ensures
            final(self).wf(),
            final(self).path() == old(self).path(),
            final(self).taken() == old(self).taken(),
            final(self).rows() == old(self).rows().push(texts(data@)),
            final(self).pending() == old(self).pending() + csv_record(texts(data@)),
    {
        let mut bytes = match encode_record(&data) {
            Some(bytes) => bytes,
            None => Vec::new(),
        };
        let ghost rows = self.rows@.push(texts(data@));
        assert(rows.drop_last() =~= self.rows@);
        self.pending.append(&mut bytes);
        self.rows = Ghost(rows);
        assert(self.taken@ + self.pending@ =~= csv_bytes(rows));
    }

    /// Hands out the bytes that wait for storage, in order.
    pub fn take_pending(&mut self) -> (r: Vec<u8>)
        requires
            old(self).wf(),
        ensures
            final(self).wf(),
            r@ == old(self).pending(),
            final(self).pending() == Seq::<u8>::empty(),
            final(self).taken() == old(self).taken() + r@,
            final(self).rows() == old(self).rows(),
            final(self).path() == old(self).path(),
    {
        let mut r: Vec<u8> = Vec::new();
        r.append(&mut self.pending);
        self.taken = Ghost(self.taken@ + r@);
        assert(self.taken@ + self.pending@ =~= old(self).taken@ + old(self).pending@);
        r
    }
}

} // verus!
