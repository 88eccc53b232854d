use vstd::prelude::*;

use crate::data_matrix::views_of;
use crate::errors::DataLoaderError;

verus! {

/// How a delimited text file is read.
#[derive(Debug)]
pub struct CSVLoaderSettings {
    pub separator: char,
    /// Names for the columns; where given, the file has no header line.
    pub header_names: Vec<String>,
    /// Where to place each header of the header line: field `j` goes to
    /// position `header_indices[j]`.
    pub header_indices: Vec<usize>,
    pub index_col: Option<usize>,
    pub skip_initial_space: bool,
    /// How many records to leave out at the start.
    pub skip_rows: usize,
    /// How many records to leave out at the end.
    pub skip_footer: usize,
    /// How many records to keep at most.
    pub n_rows: usize,
    /// Whether blank lines are left out.
    pub skip_blank_lines: bool,
}

impl Default for CSVLoaderSettings {
    /// Comma-separated, header line first, every record kept, blank lines left out.
    fn default() -> (r: Self)
        ensures
            r.separator == ',',
            r.header_names@.len() == 0,
            r.header_indices@.len() == 0,
            r.index_col is None,
            r.skip_initial_space,
            r.skip_rows == 0,
            r.skip_footer == 0,
            r.n_rows == usize::MAX,
            r.skip_blank_lines,
    {
        CSVLoaderSettings {
            separator: ',',
            header_names: Vec::new(),
            header_indices: Vec::new(),
            index_col: None,
            skip_initial_space: true,
            skip_rows: 0,
            skip_footer: 0,
            n_rows: usize::MAX,
            skip_blank_lines: true,
        }
    }
}

/// Reads tables from delimited text.
#[derive(Debug)]
pub struct CSVLoader {
    pub settings: CSVLoaderSettings,
}

/// The pieces of `s` between occurrences of `sep`; there is always at least one.
pub open spec fn split_on(s: Seq<char>, sep: char) -> Seq<Seq<char>>
    decreases s.len(),
{
    if s.len() == 0 {
        seq![Seq::<char>::empty()]
    } else {
        let prev = split_on(s.drop_last(), sep);
        if s.last() == sep {
            prev.push(Seq::<char>::empty())
        } else {
            prev.update(prev.len() - 1, prev.last().push(s.last()))
        }
    }
}

proof fn lemma_split_nonempty(s: Seq<char>, sep: char)
    ensures
        split_on(s, sep).len() >= 1,
    decreases s.len(),
{
    if s.len() > 0 {
        lemma_split_nonempty(s.drop_last(), sep);
    }
}

/// The pieces of `s` between occurrences of `sep`.
pub fn split_fields(s: &str, sep: char) -> (r: Vec<String>)
    ensures
        views_of(r@) == split_on(s@, sep),
{
    let n = s.unicode_len();
    let mut pieces: Vec<String> = Vec::new();
    let mut start: usize = 0;
    let mut i: usize = 0;
    proof {
        assert(s@.subrange(0, 0) =~= Seq::<char>::empty());
        assert(views_of(pieces@).push(s@.subrange(0, 0)) =~= seq![Seq::<char>::empty()]);
    }
    while i < n
        invariant
            n == s@.len(),
            start <= i <= n,
            views_of(pieces@).push(s@.subrange(start as int, i as int)) == split_on(
                s@.subrange(0, i as int),
                sep,
            ),
        decreases n - i,
    {
        let c = s.get_char(i);
        let ghost prefix = s@.subrange(0, i + 1);
        proof {
            assert(prefix.drop_last() =~= s@.subrange(0, i as int));
            assert(prefix.last() == c);
            lemma_split_nonempty(s@.subrange(0, i as int), sep);
        }
        if c == sep {
            let piece = s.substring_char(start, i).to_string();
            let ghost before = views_of(pieces@);
            pieces.push(piece);
            proof {
                assert(views_of(pieces@) =~= before.push(s@.subrange(start as int, i as int)));
                assert(s@.subrange(i + 1, i + 1) =~= Seq::<char>::empty());
            }
            start = i + 1;
        } else {
            proof {
                let prev = split_on(s@.subrange(0, i as int), sep);
                assert(s@.subrange(start as int, i + 1) =~= s@.subrange(start as int, i as int).push(c));
                assert(views_of(pieces@).push(s@.subrange(start as int, i + 1)) =~= prev.update(
                    prev.len() - 1,
                    prev.last().push(c),
                ));
            }
        }
        i = i + 1;
    }
    let last = s.substring_char(start, n).to_string();
    let ghost before = views_of(pieces@);
    pieces.push(last);
    proof {
        assert(s@.subrange(0, n as int) =~= s@);
        assert(views_of(pieces@) =~= before.push(s@.subrange(start as int, n as int)));
    }
    pieces
}

/// The character is white space as Unicode defines it, which is what
/// `char::is_whitespace` tests.
pub open spec fn is_white_space(c: char) -> bool {
    let u = c as u32;
    (0x09 <= u <= 0x0D) || u == 0x20 || u == 0x85 || u == 0xA0 || u == 0x1680 || (0x2000 <= u <= 0x200A)
        || u == 0x2028 || u == 0x2029 || u == 0x202F || u == 0x205F || u == 0x3000
}

fn white_space(c: char) -> (r: bool)
    ensures
        r == is_white_space(c),
{
    let u = c as u32;
    (0x09 <= u && u <= 0x0D) || u == 0x20 || u == 0x85 || u == 0xA0 || u == 0x1680 || (0x2000 <= u && u
        <= 0x200A) || u == 0x2028 || u == 0x2029 || u == 0x202F || u == 0x205F || u == 0x3000
}

/// `s` without leading and trailing white space.
pub open spec fn trimmed(s: Seq<char>) -> Seq<char> {
    let a = first_kept(s, 0);
    s.subrange(a, last_kept(s, a, s.len() as int))
}

/// The first position from `i` on that holds no white space, or the length.
pub open spec fn first_kept(s: Seq<char>, i: int) -> int
    decreases s.len() - i,
{
    if i >= s.len() {
        s.len() as int
    } else if is_white_space(s[i]) {
        first_kept(s, i + 1)
    } else {
        i
    }
}

/// The end of `s[a..b]` once trailing white space is cut.
pub open spec fn last_kept(s: Seq<char>, a: int, b: int) -> int
    decreases b - a,
{
    if b <= a {
        a
    } else if is_white_space(s[b - 1]) {
        last_kept(s, a, b - 1)
    } else {
        b
    }
}

/// `s` without leading and trailing white space, as `str::trim` gives it.
pub fn trim(s: &str) -> (r: String)
    ensures
        r@ == trimmed(s@),
{
    let n = s.unicode_len();
    let mut a: usize = 0;
    while a < n && white_space(s.get_char(a))
        invariant
            n == s@.len(),
            a <= n,
            first_kept(s@, a as int) == first_kept(s@, 0),
        decreases n - a,
    {
        a = a + 1;
    }
    let mut b: usize = n;
    while b > a && white_space(s.get_char(b - 1))
        invariant
            n == s@.len(),
            a <= b <= n,
            a as int == first_kept(s@, 0),
            last_kept(s@, a as int, b as int) == last_kept(s@, a as int, n as int),
        decreases b - a,
    {
        b = b - 1;
    }
    s.substring_char(a, b).to_string()
}

/// `line` holds only white space.
pub open spec fn blank(line: Seq<char>) -> bool {
    trimmed(line).len() == 0
}

impl CSVLoader {
    pub fn new(settings: CSVLoaderSettings) -> (r: Self)
        ensures
            r.settings == settings,
    {
        CSVLoader { settings }
    }

    /// The column names: `header_names` where given (the first line must have
    /// as many fields), else the fields of the first line, field `j` placed at
    /// position `header_indices[j]` where those are given (they must place
    /// every field at its own position).
    #[verifier::loop_isolation(false)]
    pub fn get_headers(&self, lines: &Vec<String>) -> (r: Result<Vec<String>, DataLoaderError>)
        ensures
            lines@.len() == 0 ==> r matches Err(DataLoaderError::GenericError(_)),
            lines@.len() > 0 && self.settings.header_names@.len() > 0 ==> {
                if split_on(lines@[0]@, self.settings.separator).len() != self.settings.header_names@.len() {
                    r matches Err(DataLoaderError::ColumnCountMismatch(_))
                } else {
                    r matches Ok(h) && views_of(h@) == views_of(self.settings.header_names@)
                }
            },
            lines@.len() > 0 && self.settings.header_names@.len() == 0 && self.settings.header_indices@.len()
                == 0 ==> (r matches Ok(h) && views_of(h@) == split_on(lines@[0]@, self.settings.separator)),
            lines@.len() > 0 && self.settings.header_names@.len() == 0 && self.settings.header_indices@.len()
                > 0 ==> {
                let f = split_on(lines@[0]@, self.settings.separator);
                if f.len() != self.settings.header_indices@.len() {
                    r matches Err(DataLoaderError::ColumnCountMismatch(_))
                } else {
                    if is_placement(self.settings.header_indices@, f.len()) {
                        r matches Ok(h) && placed_headers(f, self.settings.header_indices@, views_of(h@))
                    } else {
                        r matches Err(DataLoaderError::GenericError(_))
                    }
                }
            },
    {
        if lines.len() == 0 {
            return Err(DataLoaderError::GenericError("the file holds no data".to_string()));
        }
        let fields = split_fields(lines[0].as_str(), self.settings.separator);
        if self.settings.header_names.len() >= 1 {
            if fields.len() != self.settings.header_names.len() {
                return Err(DataLoaderError::ColumnCountMismatch("header_names has another length than the file's lines".to_string()));
            }
            let names = crate::data_vector::copy_values(&self.settings.header_names);
            return Ok(names);
        }
        if self.settings.header_indices.len() >= 1 {
            if fields.len() != self.settings.header_indices.len() {
                return Err(DataLoaderError::ColumnCountMismatch("header_indices has another length than the file's lines".to_string()));
            }
            let n = fields.len();
            let mut out = crate::data_vector::copy_values(&fields);
            let mut placed: Vec<bool> = Vec::with_capacity(n);
            let mut p: usize = 0;
            while p < n
                invariant
                    p <= n,
                    placed@.len() == p,
                    forall|q: int| 0 <= q < p ==> !#[trigger] placed@[q],
                decreases n - p,
            {
                placed.push(false);
                p = p + 1;
            }
            let ghost f = views_of(fields@);
            let ghost idx = self.settings.header_indices@;
            let mut j: usize = 0;
            while j < n
                invariant
                    j <= n,
                    n == fields@.len(),
                    n == idx.len(),
                    f == views_of(fields@),
                    idx == self.settings.header_indices@,
                    out@.len() == n,
                    placed@.len() == n,
                    forall|x: int| 0 <= x < j ==> #[trigger] idx[x] < n,
                    forall|x: int, y: int| 0 <= x < y < j ==> #[trigger] idx[x] != #[trigger] idx[y],
                    forall|q: int| 0 <= q < n ==> (#[trigger] placed@[q] <==> exists|x: int| 0 <= x < j && idx[x] == q),
                    forall|x: int| 0 <= x < j ==> #[trigger] out@[idx[x] as int]@ == f[x],
                decreases n - j,
            {
                let at = self.settings.header_indices[j];
                if at >= n {
                    proof {
                        assert(!is_placement(idx, n as nat));
                    }
                    return Err(DataLoaderError::GenericError("a header index is out of range".to_string()));
                }
                if placed[at] {
                    proof {
                        let x = choose|x: int| 0 <= x < j && idx[x] == at;
                        assert(idx[x] == idx[j as int]);
                        assert(!is_placement(idx, n as nat));
                    }
                    return Err(DataLoaderError::GenericError("a header index repeats".to_string()));
                }
                let ghost before = out@;
                out[at] = fields[j].clone();
                placed[at] = true;
                proof {
                    assert forall|x: int| 0 <= x < j + 1 implies #[trigger] out@[idx[x] as int]@ == f[x] by {
                        if x < j {
                            assert(idx[x] != at);
                            assert(out@[idx[x] as int] == before[idx[x] as int]);
                        }
                    }
                    assert forall|q: int| 0 <= q < n implies (#[trigger] placed@[q] <==> exists|x: int|
                        0 <= x < j + 1 && idx[x] == q) by {
                        if q == at {
                            assert(idx[j as int] == q);
                        }
                    }
                }
                j = j + 1;
            }
            proof {
                assert(is_placement(idx, n as nat));
                assert(placed_headers(f, idx, views_of(out@)));
            }
            return Ok(out);
        }
        Ok(fields)
    }

    /// The records of `lines`, each split into its fields and each field
    /// trimmed; the first line is the header line unless `header_names` is
    /// given, and blank lines are left out where `skip_blank_lines` says so.
    /// Every record needs `ncols` fields.
    #[verifier::rlimit(60)]
    pub fn split_records(&self, lines: &Vec<String>, ncols: usize) -> (r: Result<Vec<Vec<String>>, DataLoaderError>)
        ensures
            ({
                let recs = records_of(
                    record_lines(self.settings.header_names@.len() == 0, views_of(lines@)),
                    self.settings.separator,
                    self.settings.skip_blank_lines,
                );
                &&& (r is Ok) == (forall|x: int| 0 <= x < recs.len() ==> #[trigger] recs[x].len() == ncols)
                &&& r matches Err(e) ==> e is ColumnCountMismatch
                &&& r matches Ok(out) ==> out@.map_values(|rec: Vec<String>| views_of(rec@)) == recs
            }),
    {
        let ghost sep = self.settings.separator;
        let ghost skip = self.settings.skip_blank_lines;
        let ghost all = views_of(lines@);
        let first: usize = if self.settings.header_names.len() == 0 {
            1
        } else {
            0
        };
        let ghost body = record_lines(self.settings.header_names@.len() == 0, all);
        let start: usize = if first <= lines.len() {
            first
        } else {
            lines.len()
        };
        proof {
            assert(body =~= all.subrange(start as int, all.len() as int));
            assert(all.subrange(start as int, start as int) =~= Seq::<Seq<char>>::empty());
            reveal(Seq::filter);
        }
        let mut recs: Vec<Vec<String>> = Vec::new();
        let mut i: usize = start;
        while i < lines.len()
            invariant
                start <= i <= lines@.len(),
                all == views_of(lines@),
                sep == self.settings.separator,
                skip == self.settings.skip_blank_lines,
                body == all.subrange(start as int, all.len() as int),
                body == record_lines(self.settings.header_names@.len() == 0, views_of(lines@)),
                recs@.map_values(|rec: Vec<String>| views_of(rec@)) == records_of(
                    all.subrange(start as int, i as int),
                    sep,
                    skip,
                ),
                forall|x: int| 0 <= x < recs@.len() ==> #[trigger] recs@[x]@.len() == ncols,
            decreases lines@.len() - i,
        {
            let line = lines[i].as_str();
            let ghost l = all[i as int];
            let ghost prev = all.subrange(start as int, i as int);
            proof {
                assert(all.subrange(start as int, i + 1) =~= prev.push(l));
                prev.lemma_filter_push(l, kept_line(skip));
            }
            let t = trim(line);
            if t.unicode_len() == 0 && self.settings.skip_blank_lines {
                proof {
                    assert(records_of(prev.push(l), sep, skip) =~= records_of(prev, sep, skip));
                }
                i = i + 1;
                continue;
            }
            let raw = split_fields(line, self.settings.separator);
            if raw.len() != ncols {
                proof {
                    let recs_all = records_of(body, sep, skip);
                    lemma_records_prefix(all, start as int, i + 1, lines@.len() as int, sep, skip);
                    let x = records_of(prev.push(l), sep, skip).len() - 1;
                    assert(records_of(prev.push(l), sep, skip)[x] == field_views(l, sep));
                    assert(recs_all[x] == field_views(l, sep));
                    assert(views_of(raw@).len() == raw@.len());
                    assert(field_views(l, sep).len() == split_on(l, sep).len());
                    assert(recs_all[x].len() != ncols);
                }
                return Err(DataLoaderError::ColumnCountMismatch("two rows hold different numbers of columns".to_string()));
            }
            let mut fields: Vec<String> = Vec::with_capacity(raw.len());
            let mut j: usize = 0;
            while j < raw.len()
                invariant
                    j <= raw@.len(),
                    fields@.len() == j,
                    forall|x: int| 0 <= x < j ==> #[trigger] fields@[x]@ == trimmed(raw@[x]@),
                decreases raw@.len() - j,
            {
                fields.push(trim(raw[j].as_str()));
                j = j + 1;
            }
            proof {
                assert(views_of(fields@) =~= field_views(l, sep));
                let before = recs@.map_values(|rec: Vec<String>| views_of(rec@));
                assert(records_of(prev.push(l), sep, skip) =~= before.push(field_views(l, sep)));
            }
            let ghost before = recs@;
            recs.push(fields);
            proof {
                assert(recs@.map_values(|rec: Vec<String>| views_of(rec@)) =~= before.map_values(
                    |rec: Vec<String>| views_of(rec@),
                ).push(views_of(recs@[recs@.len() - 1]@)));
            }
            i = i + 1;
        }
        proof {
            assert(all.subrange(start as int, lines@.len() as int) == body);
        }
        Ok(recs)
    }

    /// The records a column keeps of `n`, as the range `start..end`: the
    /// first `skip_rows` records and the last `skip_footer` are left out, and at
    /// most `n_rows` are kept.
    pub fn kept_range(&self, n: usize) -> (r: (usize, usize))
        ensures
            r.0 as int == min3(self.settings.skip_rows as int, n as int, n as int),
            r.1 as int == min3(
                max2(r.0 as int, sub_floor(n as int, self.settings.skip_footer as int)),
                r.0 + self.settings.n_rows,
                n as int,
            ),
            r.0 <= r.1 <= n,
    {
        let start = if self.settings.skip_rows < n {
            self.settings.skip_rows
        } else {
            n
        };
        let tail = if n > self.settings.skip_footer {
            n - self.settings.skip_footer
        } else {
            0
        };
        let end = if tail > start {
            tail
        } else {
            start
        };
        if self.settings.n_rows < end - start {
            (start, start + self.settings.n_rows)
        } else {
            (start, end)
        }
    }
}

pub open spec fn max2(a: int, b: int) -> int {
    if a >= b {
        a
    } else {
        b
    }
}

/// `a - b`, or 0 where `b` is larger.
pub open spec fn sub_floor(a: int, b: int) -> int {
    if a > b {
        a - b
    } else {
        0
    }
}

pub open spec fn min3(a: int, b: int, c: int) -> int {
    if a <= b && a <= c {
        a
    } else if b <= c {
        b
    } else {
        c
    }
}

/// The lines after the header line, where there is one.
pub open spec fn record_lines(has_header: bool, lines: Seq<Seq<char>>) -> Seq<Seq<char>> {
    if has_header && lines.len() > 0 {
        lines.subrange(1, lines.len() as int)
    } else if has_header {
        lines
    } else {
        lines
    }
}

/// A line that is kept as a record.
pub open spec fn kept_line(skip_blank: bool) -> spec_fn(Seq<char>) -> bool {
    |l: Seq<char>| !(skip_blank && blank(l))
}

/// The trimmed fields of a line.
pub open spec fn field_views(l: Seq<char>, sep: char) -> Seq<Seq<char>> {
    split_on(l, sep).map_values(|f: Seq<char>| trimmed(f))
}

/// The records that `lines` hold.
pub open spec fn records_of(lines: Seq<Seq<char>>, sep: char, skip_blank: bool) -> Seq<Seq<Seq<char>>> {
    lines.filter(kept_line(skip_blank)).map_values(|l: Seq<char>| field_views(l, sep))
}

proof fn lemma_records_prefix(all: Seq<Seq<char>>, s: int, i: int, n: int, sep: char, skip: bool)
    requires
        0 <= s <= i <= n <= all.len(),
    ensures
        records_of(all.subrange(s, i), sep, skip).len() <= records_of(all.subrange(s, n), sep, skip).len(),
        forall|x: int|
            0 <= x < records_of(all.subrange(s, i), sep, skip).len() ==> #[trigger] records_of(
                all.subrange(s, i),
                sep,
                skip,
            )[x] == records_of(all.subrange(s, n), sep, skip)[x],
    decreases n - i,
{
    if i < n {
        lemma_records_prefix(all, s, i + 1, n, sep, skip);
        let pre = all.subrange(s, i);
        assert(all.subrange(s, i + 1) =~= pre.push(all[i]));
        pre.lemma_filter_push(all[i], kept_line(skip));
        let a = records_of(pre, sep, skip);
        let b = records_of(all.subrange(s, i + 1), sep, skip);
        if kept_line(skip)(all[i]) {
            assert(b =~= a.push(field_views(all[i], sep)));
        } else {
            assert(b =~= a);
        }
        assert forall|x: int| 0 <= x < a.len() implies #[trigger] a[x] == records_of(all.subrange(s, n), sep, skip)[x] by {
            assert(a[x] == b[x]);
        }
    }
}

/// Every value is `true` or `false`.
pub open spec fn all_bool_tokens(values: Seq<Seq<char>>) -> bool {
    forall|i: int| 0 <= i < values.len() ==> #[trigger] values[i] == "true"@ || values[i] == "false"@
}

/// Whether every value is `true` or `false`: such a column holds booleans.
pub fn is_bool_column(values: &Vec<String>) -> (r: bool)
    ensures
        r == all_bool_tokens(views_of(values@)),
{
    let t = "true".to_string();
    let f = "false".to_string();
    let mut i: usize = 0;
    while i < values.len()
        invariant
            i <= values@.len(),
            t@ == "true"@,
            f@ == "false"@,
            forall|x: int| 0 <= x < i ==> #[trigger] values@[x]@ == "true"@ || values@[x]@ == "false"@,
        decreases values@.len() - i,
    {
        if !(values[i] == t || values[i] == f) {
            proof {
                assert(views_of(values@)[i as int] == values@[i as int]@);
            }
            return false;
        }
        i = i + 1;
    }
    true
}

/// The booleans that the values spell: `true` for `true`, else `false`.
pub fn bool_values(values: &Vec<String>) -> (r: Vec<bool>)
    ensures
        r@.len() == values@.len(),
        forall|i: int| 0 <= i < values@.len() ==> #[trigger] r@[i] == (values@[i]@ == "true"@),
{
    let t = "true".to_string();
    let mut out: Vec<bool> = Vec::with_capacity(values.len());
    let mut i: usize = 0;
    while i < values.len()
        invariant
            i <= values@.len(),
            t@ == "true"@,
            out@.len() == i,
            forall|x: int| 0 <= x < i ==> #[trigger] out@[x] == (values@[x]@ == "true"@),
        decreases values@.len() - i,
    {
        out.push(values[i] == t);
        i = i + 1;
    }
    out
}

/// `idx` sends each of `n` positions to a distinct position below `n`.
pub open spec fn is_placement(idx: Seq<usize>, n: nat) -> bool {
    &&& idx.len() == n
    &&& forall|j: int| 0 <= j < n ==> #[trigger] idx[j] < n
    &&& idx.no_duplicates()
}

/// `h` holds field `j` of `f` at position `idx[j]`, and nothing else.
pub open spec fn placed_headers(f: Seq<Seq<char>>, idx: Seq<usize>, h: Seq<Seq<char>>) -> bool {
    &&& h.len() == f.len()
    &&& forall|j: int| 0 <= j < f.len() ==> #[trigger] h[idx[j] as int] == f[j]
}

} // verus!
