//! Parsing of the container-inspection collaborator's output, and the
//! commands the collaborator is asked to run.
//!
//! The collaborator performs host and container introspection by invoking
//! host tooling; the surrounding program runs the commands built here and
//! hands their text output back to these parsers, which turn the tabular and
//! box-drawn forms into structured key/value rows. A row keeps its columns in
//! order; a row shorter than its header row yields only the columns it has.

use vstd::prelude::*;

use crate::text::{
    find_char, find_str, first_match, idx_of, join_sp, join_space_from, lines_of, matches_at,
    parse_u32_str, spec_lines, spec_parse_u32, spec_trim, split_on, split_on_char,
    split_whitespace_of, split_ws, starts_with_str, str_eq, substr_string, trim_of,
};

verus! {

/// One parsed cell: a column header and the value beneath it.
#[derive(Debug)]
pub struct Entry {
    pub key: String,
    pub value: String,
}

/// The mathematical value of an `Entry`.
#[verifier::ext_equal]
pub struct EntryView {
    pub key: Seq<char>,
    pub value: Seq<char>,
}

impl View for Entry {
    type V = EntryView;

    open spec fn view(&self) -> EntryView {
        EntryView { key: self.key@, value: self.value@ }
    }
}

impl DeepView for Entry {
    type V = EntryView;

    open spec fn deep_view(&self) -> EntryView {
        EntryView { key: self.key@, value: self.value@ }
    }
}

/// Headers paired positionally with field values; the shorter side decides
/// how many cells the row has.
pub open spec fn pair_row(headers: Seq<Seq<char>>, fields: Seq<Seq<char>>) -> Seq<EntryView> {
    Seq::new(
        if headers.len() <= fields.len() {
            headers.len()
        } else {
            fields.len()
        },
        |j: int| EntryView { key: headers[j], value: fields[j] },
    )
}

/// Pairs headers with field values, as `pair_row` describes.
fn pair_up(headers: &Vec<String>, fields: &Vec<String>) -> (r: Vec<Entry>)
    ensures
        r.deep_view() == pair_row(headers.deep_view(), fields.deep_view()),
{
    let m = if headers.len() <= fields.len() {
        headers.len()
    } else {
        fields.len()
    };
    let ghost model = pair_row(headers.deep_view(), fields.deep_view());
    let mut r: Vec<Entry> = Vec::new();
    let mut j: usize = 0;
    while j < m
        invariant
            model == pair_row(headers.deep_view(), fields.deep_view()),
            m == if headers@.len() <= fields@.len() {
                headers@.len()
            } else {
                fields@.len()
            },
            model.len() == m,
            j <= m,
            r.deep_view() == model.take(j as int),
        decreases m - j,
    {
        let ghost old_dv = r.deep_view();
        let ghost e = EntryView {
            key: headers.deep_view()[j as int],
            value: fields.deep_view()[j as int],
        };
        r.push(Entry { key: headers[j].clone(), value: fields[j].clone() });
        j = j + 1;
        proof {
            assert(r.deep_view() =~~= old_dv.push(e));
            assert(model[j - 1] =~~= e);
            assert(model.take(j as int) =~~= model.take(j - 1).push(model[j - 1]));
            assert(r.deep_view() =~~= model.take(j as int));
        }
    }
    proof {
        assert(model.take(m as int) =~~= model);
    }
    r
}

/// The table a whitespace-separated dump denotes: the first line's words are
/// the headers, and every later line — empty ones included — is a row of its
/// words paired with those headers.
pub open spec fn spec_tabular_table(s: Seq<char>) -> Seq<Seq<EntryView>> {
    let ls = spec_lines(s);
    if ls.len() == 0 {
        Seq::<Seq<EntryView>>::empty()
    } else {
        let headers = split_ws(ls[0]);
        Seq::new((ls.len() - 1) as nat, |i: int| pair_row(headers, split_ws(ls[i + 1])))
    }
}

/// Reads a whitespace-separated table, one row per line after the header
/// line. Columns whose values hold spaces need the other readers.
pub fn parse_tabular_data_table(output: &str) -> (r: Vec<Vec<Entry>>)
    ensures
        r.deep_view() == spec_tabular_table(output@),
{
    let ghost model = spec_tabular_table(output@);
    let ls = lines_of(output);
    let mut rows: Vec<Vec<Entry>> = Vec::new();
    if ls.len() == 0 {
        proof {
            assert(rows.deep_view() =~~= model);
        }
        return rows;
    }
    let headers = split_whitespace_of(ls[0].as_str());
    let mut i: usize = 1;
    while i < ls.len()
        invariant
            model == spec_tabular_table(output@),
            ls.deep_view() == spec_lines(output@),
            ls@.len() == ls.deep_view().len(),
            ls@.len() >= 1,
            headers.deep_view() == split_ws(ls.deep_view()[0]),
            model.len() == ls@.len() - 1,
            1 <= i <= ls@.len(),
            rows.deep_view() == model.take(i - 1),
        decreases ls@.len() - i,
    {
        let fields = split_whitespace_of(ls[i].as_str());
        let row = pair_up(&headers, &fields);
        let ghost old_dv = rows.deep_view();
        proof {
            assert(model[i - 1] == pair_row(headers.deep_view(), fields.deep_view()));
        }
        let ghost rv = row.deep_view();
        rows.push(row);
        i = i + 1;
        proof {
            assert(rows.deep_view() =~~= old_dv.push(rv));
            assert(model.take(i - 1) =~~= model.take(i - 2).push(model[i - 2]));
            assert(rows.deep_view() =~~= model.take(i - 1));
        }
    }
    proof {
        assert(model.take(ls@.len() - 1) =~~= model);
    }
    rows
}

/// The cells of one box-drawn line: split on `|`, each piece trimmed.
pub open spec fn box_cols(l: Seq<char>) -> Seq<Seq<char>> {
    split_on(l, '|').map_values(|c: Seq<char>| spec_trim(c))
}

/// Splits a box-drawn line on `|` and trims each piece.
fn trimmed_cols(l: &str) -> (r: Vec<String>)
    ensures
        r.deep_view() == box_cols(l@),
{
    let ghost model = box_cols(l@);
    let parts = split_on_char(l, '|');
    let mut out: Vec<String> = Vec::new();
    let mut i: usize = 0;
    while i < parts.len()
        invariant
            model == box_cols(l@),
            parts.deep_view() == split_on(l@, '|'),
            parts@.len() == parts.deep_view().len(),
            model.len() == parts@.len(),
            i <= parts@.len(),
            out.deep_view() == model.take(i as int),
        decreases parts@.len() - i,
    {
        let ghost old_dv = out.deep_view();
        let t = trim_of(parts[i].as_str());
        proof {
            assert(model[i as int] == spec_trim(parts.deep_view()[i as int]));
        }
        out.push(t);
        i = i + 1;
        proof {
            assert(out.deep_view() =~~= old_dv.push(model[i - 1]));
            assert(model.take(i as int) =~~= model.take(i - 1).push(model[i - 1]));
            assert(out.deep_view() =~~= model.take(i as int));
        }
    }
    proof {
        assert(model.take(parts@.len() as int) =~~= model);
    }
    out
}

/// Whether a line belongs to a box-drawn table's body: it starts with `|`.
pub open spec fn is_box_line(l: Seq<char>) -> bool {
    l.len() >= 1 && l[0] == '|'
}

/// The rows a run of box-drawn lines denotes, given the headers found so far:
/// the first `|` line provides the headers, every later one a row.
pub open spec fn box_table_from(ls: Seq<Seq<char>>, headers: Option<Seq<Seq<char>>>) -> Seq<
    Seq<EntryView>,
>
    decreases ls.len(),
{
    if ls.len() == 0 {
        Seq::<Seq<EntryView>>::empty()
    } else if !is_box_line(ls.first()) {
        box_table_from(ls.drop_first(), headers)
    } else {
        match headers {
            None => box_table_from(ls.drop_first(), Some(box_cols(ls.first()))),
            Some(h) => seq![pair_row(h, box_cols(ls.first()))] + box_table_from(
                ls.drop_first(),
                Some(h),
            ),
        }
    }
}

/// The table a box-drawn dump denotes: the first line is decoration and is
/// skipped; the first line starting with `|` carries the headers; every later
/// `|` line is a row.
pub open spec fn spec_box_table(s: Seq<char>) -> Seq<Seq<EntryView>> {
    let ls = spec_lines(s);
    let body = if ls.len() >= 1 {
        ls.drop_first()
    } else {
        ls
    };
    box_table_from(body, None)
}

/// Reads a box-drawn table, as `spec_box_table` describes.
pub fn parse_box_data_table(output: &str) -> (r: Vec<Vec<Entry>>)
    ensures
        r.deep_view() == spec_box_table(output@),
{
    let ghost model = spec_box_table(output@);
    let mut ls = lines_of(output);
    if ls.len() > 0 {
        let ghost before = ls.deep_view();
        let _ = ls.remove(0);
        proof {
            assert(ls.deep_view() =~~= before.drop_first());
        }
    }
    let ghost body = ls.deep_view();
    proof {
        assert(model == box_table_from(body, None));
        assert(body.skip(0) =~= body);
    }
    let mut rows: Vec<Vec<Entry>> = Vec::new();
    let mut headers: Option<Vec<String>> = None;
    let ghost hs: Option<Seq<Seq<char>>> = None;
    let mut i: usize = 0;
    while i < ls.len()
        invariant
            body == ls.deep_view(),
            body.len() == ls@.len(),
            i <= ls@.len(),
            headers is None <==> hs is None,
            headers is Some ==> headers->Some_0.deep_view() == hs->Some_0,
            model == rows.deep_view() + box_table_from(body.skip(i as int), hs),
        decreases ls@.len() - i,
    {
        let ghost suffix = body.skip(i as int);
        proof {
            assert(suffix.first() == body[i as int]);
            assert(suffix.drop_first() =~= body.skip(i as int + 1));
        }
        let line = &ls[i];
        let n = line.as_str().unicode_len();
        if n >= 1 && line.as_str().get_char(0) == '|' {
            let cols = trimmed_cols(line.as_str());
            match &headers {
                None => {
                    let ghost hseq = box_cols(body[i as int]);
                    headers = Some(cols);
                    proof {
                        hs = Some(hseq);
                    }
                },
                Some(h) => {
                    let row = pair_up(h, &cols);
                    let ghost old_dv = rows.deep_view();
                    let ghost rv = row.deep_view();
                    rows.push(row);
                    proof {
                        assert(rows.deep_view() =~~= old_dv.push(rv));
                        assert(box_table_from(suffix, hs) == seq![
                            pair_row(hs->Some_0, box_cols(body[i as int])),
                        ] + box_table_from(suffix.drop_first(), hs));
                        assert(model =~~= rows.deep_view() + box_table_from(
                            body.skip(i as int + 1),
                            hs,
                        ));
                    }
                },
            }
        } else {
            proof {
                assert(!is_box_line(body[i as int]));
            }
        }
        i = i + 1;
    }
    proof {
        assert(body.skip(body.len() as int) =~= Seq::<Seq<char>>::empty());
        assert(model =~~= rows.deep_view());
    }
    rows
}

/// The column headers of the container listing.
pub open spec fn lxc_headers() -> Seq<Seq<char>> {
    seq!["NAME"@, "STATE"@, "IPV4"@, "IPV6"@, "TYPE"@, "SNAPSHOTS"@]
}

/// The rows of the container listing's `|` lines: each line's cells after the
/// leading border cell, paired with the fixed headers.
pub open spec fn lxc_rows(ls: Seq<Seq<char>>) -> Seq<Seq<EntryView>>
    decreases ls.len(),
{
    if ls.len() == 0 {
        Seq::<Seq<EntryView>>::empty()
    } else {
        let rest = lxc_rows(ls.drop_last());
        if is_box_line(ls.last()) {
            rest.push(pair_row(lxc_headers(), box_cols(ls.last()).skip(1)))
        } else {
            rest
        }
    }
}

/// The container listing a dump denotes: two decoration lines are skipped,
/// then every line starting with `|` is a row.
pub open spec fn spec_lxc_list(s: Seq<char>) -> Seq<Seq<EntryView>> {
    let ls = spec_lines(s);
    let body = if ls.len() >= 2 {
        ls.skip(2)
    } else {
        Seq::<Seq<char>>::empty()
    };
    lxc_rows(body)
}

/// Reads the container listing, one row of fixed headers per `|` line.
pub fn lxc_list(output: &str) -> (r: Vec<Vec<Entry>>)
    ensures
        r.deep_view() == spec_lxc_list(output@),
{
    let ghost model = spec_lxc_list(output@);
    let mut ls = lines_of(output);
    if ls.len() >= 2 {
        let ghost before = ls.deep_view();
        let _ = ls.remove(0);
        let _ = ls.remove(0);
        proof {
            assert(ls.deep_view() =~~= before.skip(2));
        }
    } else {
        ls = Vec::new();
        proof {
            assert(ls.deep_view() =~~= Seq::<Seq<char>>::empty());
        }
    }
    let ghost body = ls.deep_view();
    proof {
        assert(model == lxc_rows(body));
    }
    let mut hdrs: Vec<String> = Vec::new();
    hdrs.push(String::from_str("NAME"));
    hdrs.push(String::from_str("STATE"));
    hdrs.push(String::from_str("IPV4"));
    hdrs.push(String::from_str("IPV6"));
    hdrs.push(String::from_str("TYPE"));
    hdrs.push(String::from_str("SNAPSHOTS"));
    proof {
        assert(hdrs.deep_view() =~~= lxc_headers());
    }
    let mut rows: Vec<Vec<Entry>> = Vec::new();
    let mut i: usize = 0;
    proof {
        assert(body.take(0) =~= Seq::<Seq<char>>::empty());
    }
    while i < ls.len()
        invariant
            body == ls.deep_view(),
            body.len() == ls@.len(),
            hdrs.deep_view() == lxc_headers(),
            i <= ls@.len(),
            rows.deep_view() == lxc_rows(body.take(i as int)),
        decreases ls@.len() - i,
    {
        let ghost pre = body.take(i as int);
        let ghost post = body.take(i as int + 1);
        proof {
            assert(post.drop_last() =~= pre);
            assert(post.last() == body[i as int]);
        }
        let line = &ls[i];
        let n = line.as_str().unicode_len();
        if n >= 1 && line.as_str().get_char(0) == '|' {
            let mut cols = trimmed_cols(line.as_str());
            let ghost cdv = cols.deep_view();
            proof {
                crate::text::lemma_split_on_len(body[i as int], '|');
                assert(cdv == box_cols(body[i as int]));
                assert(cdv.len() >= 1);
                assert(cols@.len() == cdv.len());
            }
            let _ = cols.remove(0);
            proof {
                assert(cols.deep_view() =~~= cdv.skip(1));
            }
            let row = pair_up(&hdrs, &cols);
            let ghost old_dv = rows.deep_view();
            let ghost rv = row.deep_view();
            rows.push(row);
            proof {
                assert(rows.deep_view() =~~= old_dv.push(rv));
                assert(rows.deep_view() =~~= lxc_rows(post));
            }
        } else {
            proof {
                assert(!is_box_line(body[i as int]));
            }
        }
        i = i + 1;
    }
    proof {
        assert(body.take(body.len() as int) =~= body);
    }
    rows
}

/// The key/value pairs of an info dump's lines: each line with a colon yields
/// its trimmed halves; lines without one are skipped.
pub open spec fn info_entries(ls: Seq<Seq<char>>) -> Seq<EntryView>
    decreases ls.len(),
{
    if ls.len() == 0 {
        Seq::<EntryView>::empty()
    } else {
        let rest = info_entries(ls.drop_last());
        let l = ls.last();
        let k = idx_of(l, ':');
        if k < l.len() {
            rest.push(EntryView { key: spec_trim(l.take(k)), value: spec_trim(l.skip(k + 1)) })
        } else {
            rest
        }
    }
}

/// The resource summary an info dump denotes: the first seven lines, each
/// split at its first colon into a trimmed key and value.
pub open spec fn spec_lxc_info(s: Seq<char>) -> Seq<EntryView> {
    let ls = spec_lines(s);
    info_entries(
        if ls.len() <= 7 {
            ls
        } else {
            ls.take(7)
        },
    )
}

/// Reads a container's resource summary, as `spec_lxc_info` describes.
pub fn lxc_info(output: &str) -> (r: Vec<Entry>)
    ensures
        r.deep_view() == spec_lxc_info(output@),
{
    let ghost model = spec_lxc_info(output@);
    let ls = lines_of(output);
    let m = if ls.len() <= 7 {
        ls.len()
    } else {
        7
    };
    let ghost body = if ls.deep_view().len() <= 7 {
        ls.deep_view()
    } else {
        ls.deep_view().take(7)
    };
    proof {
        assert(model == info_entries(body));
        assert(body.take(0) =~= Seq::<Seq<char>>::empty());
    }
    let mut out: Vec<Entry> = Vec::new();
    let mut i: usize = 0;
    while i < m
        invariant
            body == if ls.deep_view().len() <= 7 {
                ls.deep_view()
            } else {
                ls.deep_view().take(7)
            },
            m == body.len(),
            m <= ls@.len(),
            ls@.len() == ls.deep_view().len(),
            i <= m,
            out.deep_view() == info_entries(body.take(i as int)),
        decreases m - i,
    {
        let ghost pre = body.take(i as int);
        let ghost post = body.take(i as int + 1);
        proof {
            assert(post.drop_last() =~= pre);
            assert(post.last() == body[i as int]);
            assert(body[i as int] == ls.deep_view()[i as int]);
        }
        let line = &ls[i];
        let n = line.as_str().unicode_len();
        let k = find_char(line.as_str(), ':');
        if k < n {
            let key_raw = substr_string(line.as_str(), 0, k);
            let val_raw = substr_string(line.as_str(), k + 1, n);
            let key = trim_of(key_raw.as_str());
            let value = trim_of(val_raw.as_str());
            proof {
                assert(line@.subrange(0, k as int) =~= line@.take(k as int));
                assert(line@.subrange(k as int + 1, n as int) =~= line@.skip(k as int + 1));
            }
            let ghost old_dv = out.deep_view();
            out.push(Entry { key, value });
            proof {
                assert(out.deep_view() =~~= old_dv.push(
                    EntryView {
                        key: spec_trim(body[i as int].take(k as int)),
                        value: spec_trim(body[i as int].skip(k as int + 1)),
                    },
                ));
                assert(out.deep_view() =~~= info_entries(post));
            }
        }
        i = i + 1;
    }
    proof {
        assert(body.take(m as int) =~= body);
    }
    out
}

/// The column headers of a process listing, `COMMAND` aside.
pub open spec fn ps_headers() -> Seq<Seq<char>> {
    seq!["USER"@, "PID"@, "%CPU"@, "%MEM"@, "VSZ"@, "RSS"@, "TTY"@, "STAT"@, "START"@, "TIME"@]
}

/// One process row: the first ten fields under the fixed headers, the rest
/// rejoined by single spaces as the command, which may itself hold spaces.
pub open spec fn ps_row(fs: Seq<Seq<char>>) -> Seq<EntryView>
    recommends
        fs.len() >= 11,
{
    pair_row(ps_headers(), fs.take(10)).push(
        EntryView { key: "COMMAND"@, value: join_sp(fs.skip(10)) },
    )
}

/// The process rows of a run of lines: one per line with at least eleven
/// whitespace-separated fields; shorter lines are skipped.
pub open spec fn ps_rows(ls: Seq<Seq<char>>) -> Seq<Seq<EntryView>>
    decreases ls.len(),
{
    if ls.len() == 0 {
        Seq::<Seq<EntryView>>::empty()
    } else {
        let rest = ps_rows(ls.drop_last());
        if split_ws(ls.last()).len() >= 11 {
            rest.push(ps_row(split_ws(ls.last())))
        } else {
            rest
        }
    }
}

/// The process listing a dump denotes: its header line — present exactly
/// where the dump starts with `USER` — is skipped, and every remaining line
/// with at least eleven fields is a row.
pub open spec fn spec_ps_aux(s: Seq<char>) -> Seq<Seq<EntryView>> {
    let ls = spec_lines(s);
    let skip_hdr = s.len() >= "USER"@.len() && s.subrange(0, "USER"@.len() as int) == "USER"@;
    let body = if skip_hdr && ls.len() >= 1 {
        ls.drop_first()
    } else {
        ls
    };
    ps_rows(body)
}

/// Reads a `ps aux` process listing, as `spec_ps_aux` describes.
pub fn parse_ps_aux(output: &str) -> (r: Vec<Vec<Entry>>)
    ensures
        r.deep_view() == spec_ps_aux(output@),
{
    let ghost model = spec_ps_aux(output@);
    let mut ls = lines_of(output);
    if starts_with_str(output, "USER") && ls.len() >= 1 {
        let ghost before = ls.deep_view();
        let _ = ls.remove(0);
        proof {
            assert(ls.deep_view() =~~= before.drop_first());
        }
    }
    let ghost body = ls.deep_view();
    proof {
        assert(model == ps_rows(body));
        assert(body.take(0) =~= Seq::<Seq<char>>::empty());
    }
    let mut hdrs: Vec<String> = Vec::new();
    hdrs.push(String::from_str("USER"));
    hdrs.push(String::from_str("PID"));
    hdrs.push(String::from_str("%CPU"));
    hdrs.push(String::from_str("%MEM"));
    hdrs.push(String::from_str("VSZ"));
    hdrs.push(String::from_str("RSS"));
    hdrs.push(String::from_str("TTY"));
    hdrs.push(String::from_str("STAT"));
    hdrs.push(String::from_str("START"));
    hdrs.push(String::from_str("TIME"));
    proof {
        assert(hdrs.deep_view() =~~= ps_headers());
    }
    let mut rows: Vec<Vec<Entry>> = Vec::new();
    let mut i: usize = 0;
    while i < ls.len()
        invariant
            body == ls.deep_view(),
            body.len() == ls@.len(),
            hdrs.deep_view() == ps_headers(),
            i <= ls@.len(),
            rows.deep_view() == ps_rows(body.take(i as int)),
        decreases ls@.len() - i,
    {
        let ghost pre = body.take(i as int);
        let ghost post = body.take(i as int + 1);
        proof {
            assert(post.drop_last() =~= pre);
            assert(post.last() == body[i as int]);
        }
        let fields = split_whitespace_of(ls[i].as_str());
        if fields.len() >= 11 {
            let ghost fdv = fields.deep_view();
            let mut row = pair_up(&hdrs, &fields);
            let command = join_space_from(&fields, 10);
            proof {
                assert(row.deep_view() =~~= pair_row(ps_headers(), fdv.take(10)));
            }
            let ghost before_cmd = row.deep_view();
            row.push(Entry { key: String::from_str("COMMAND"), value: command });
            proof {
                assert(row.deep_view() =~~= before_cmd.push(
                    EntryView { key: "COMMAND"@, value: join_sp(fdv.skip(10)) },
                ));
                assert(row.deep_view() =~~= ps_row(fdv));
            }
            let ghost old_dv = rows.deep_view();
            let ghost rv = row.deep_view();
            rows.push(row);
            proof {
                assert(rows.deep_view() =~~= old_dv.push(rv));
                assert(rows.deep_view() =~~= ps_rows(post));
            }
        }
        i = i + 1;
    }
    proof {
        assert(body.take(body.len() as int) =~= body);
    }
    rows
}

/// The position of the first cell keyed `key` in a row, or the row's length.
pub open spec fn key_idx(row: Seq<EntryView>, key: Seq<char>) -> int
    decreases row.len(),
{
    if row.len() == 0 {
        0
    } else if row[0].key == key {
        0
    } else {
        1 + key_idx(row.drop_first(), key)
    }
}

/// What `key_idx` returns: the first cell with that key, or the length.
pub proof fn lemma_key_idx(row: Seq<EntryView>, key: Seq<char>)
    ensures
        0 <= key_idx(row, key) <= row.len(),
        key_idx(row, key) < row.len() ==> row[key_idx(row, key)].key == key,
        forall|j: int| 0 <= j < key_idx(row, key) ==> row[j].key != key,
    decreases row.len(),
{
    if row.len() > 0 && row[0].key != key {
        let t = row.drop_first();
        lemma_key_idx(t, key);
        assert forall|j: int| 0 <= j < key_idx(row, key) implies row[j].key != key by {
            if j > 0 {
                assert(row[j] == t[j - 1]);
            }
        }
    }
}

/// A row's state: the value of its first `STATE` cell, if it has one.
pub open spec fn row_state(row: Seq<EntryView>) -> Option<Seq<char>> {
    let k = key_idx(row, "STATE"@);
    if k < row.len() {
        Some(row[k].value)
    } else {
        None
    }
}

/// The value of the first `STATE` cell of a row, if any.
fn find_state(row: &Vec<Entry>) -> (r: Option<String>)
    ensures
        r is Some <==> row_state(row.deep_view()) is Some,
        r is Some ==> r->Some_0@ == row_state(row.deep_view())->Some_0,
{
    let ghost dv = row.deep_view();
    let mut j: usize = 0;
    while j < row.len()
        invariant
            dv == row.deep_view(),
            dv.len() == row@.len(),
            j <= row@.len(),
            forall|k: int| 0 <= k < j ==> dv[k].key != "STATE"@,
        decreases row@.len() - j,
    {
        let hit = str_eq(row[j].key.as_str(), "STATE");
        proof {
            assert(dv[j as int] == row@[j as int].deep_view());
            assert(dv[j as int].key == row@[j as int].key@);
        }
        if hit {
            proof {
                lemma_key_idx(dv, "STATE"@);
                assert(key_idx(dv, "STATE"@) == j as int);
            }
            return Some(row[j].value.clone());
        }
        j = j + 1;
    }
    proof {
        lemma_key_idx(dv, "STATE"@);
    }
    None
}

/// The running and total container counts a listing's rows denote: rows with
/// a `STATE` cell count toward the total, those whose state is `RUNNING`
/// toward the running count.
pub open spec fn spec_container_tally(rows: Seq<Seq<EntryView>>) -> (int, int)
    decreases rows.len(),
{
    if rows.len() == 0 {
        (0int, 0int)
    } else {
        let prev = spec_container_tally(rows.drop_last());
        match row_state(rows.last()) {
            None => prev,
            Some(st) => (
                prev.0 + if st == "RUNNING"@ {
                    1int
                } else {
                    0int
                },
                prev.1 + 1,
            ),
        }
    }
}

/// Counts the running and known containers among parsed listing rows.
pub fn get_running_containers(rows: &Vec<Vec<Entry>>) -> (r: (usize, usize))
    ensures
        r.0 == spec_container_tally(rows.deep_view()).0,
        r.1 == spec_container_tally(rows.deep_view()).1,
{
    let ghost dv = rows.deep_view();
    let mut running: usize = 0;
    let mut total: usize = 0;
    let mut i: usize = 0;
    proof {
        assert(dv.take(0) =~= Seq::<Seq<EntryView>>::empty());
    }
    while i < rows.len()
        invariant
            dv == rows.deep_view(),
            dv.len() == rows@.len(),
            i <= rows@.len(),
            running <= i,
            total <= i,
            running == spec_container_tally(dv.take(i as int)).0,
            total == spec_container_tally(dv.take(i as int)).1,
        decreases rows@.len() - i,
    {
        let ghost pre = dv.take(i as int);
        let ghost post = dv.take(i as int + 1);
        proof {
            assert(post.drop_last() =~= pre);
            assert(post.last() == dv[i as int]);
        }
        match find_state(&rows[i]) {
            Some(state) => {
                if str_eq(state.as_str(), "RUNNING") {
                    running = running + 1;
                }
                total = total + 1;
            },
            None => {},
        }
        i = i + 1;
    }
    proof {
        assert(dv.take(dv.len() as int) =~= dv);
    }
    (running, total)
}

/// The invocation of the container tool: `lxc` before the given arguments.
pub fn lxc_command(args: &Vec<String>) -> (r: Vec<String>)
    ensures
        r.deep_view() == seq!["lxc"@] + args.deep_view(),
{
    let ghost adv = args.deep_view();
    let mut r: Vec<String> = Vec::new();
    r.push(String::from_str("lxc"));
    let mut i: usize = 0;
    proof {
        assert(r.deep_view() =~~= seq!["lxc"@] + adv.take(0));
    }
    while i < args.len()
        invariant
            adv == args.deep_view(),
            adv.len() == args@.len(),
            i <= args@.len(),
            r.deep_view() == seq!["lxc"@] + adv.take(i as int),
        decreases args@.len() - i,
    {
        let ghost old_dv = r.deep_view();
        r.push(args[i].clone());
        i = i + 1;
        proof {
            assert(r.deep_view() =~~= old_dv.push(adv[i - 1]));
            assert(r.deep_view() =~~= seq!["lxc"@] + adv.take(i as int));
        }
    }
    proof {
        assert(adv.take(args@.len() as int) =~= adv);
    }
    r
}

/// The command that probes a container's network connectivity.
pub fn network_connectivity(container_name: &str) -> (r: Vec<String>)
    ensures
        r.deep_view() == seq![
            "lxc"@,
            "exec"@,
            container_name@,
            "--"@,
            "ping"@,
            "-c"@,
            "3"@,
            "8.8.8.8"@,
        ],
{
    let mut r: Vec<String> = Vec::new();
    r.push(String::from_str("lxc"));
    r.push(String::from_str("exec"));
    r.push(container_name.to_owned());
    r.push(String::from_str("--"));
    r.push(String::from_str("ping"));
    r.push(String::from_str("-c"));
    r.push(String::from_str("3"));
    r.push(String::from_str("8.8.8.8"));
    proof {
        assert(r.deep_view() =~~= seq![
            "lxc"@,
            "exec"@,
            container_name@,
            "--"@,
            "ping"@,
            "-c"@,
            "3"@,
            "8.8.8.8"@,
        ]);
    }
    r
}

/// The command that samples a container's system log tail.
pub fn log_file_health(container_name: &str) -> (r: Vec<String>)
    ensures
        r.deep_view() == seq![
            "lxc"@,
            "exec"@,
            container_name@,
            "--"@,
            "tail"@,
            "-n"@,
            "100"@,
            "/var/log/syslog"@,
        ],
{
    let mut r: Vec<String> = Vec::new();
    r.push(String::from_str("lxc"));
    r.push(String::from_str("exec"));
    r.push(container_name.to_owned());
    r.push(String::from_str("--"));
    r.push(String::from_str("tail"));
    r.push(String::from_str("-n"));
    r.push(String::from_str("100"));
    r.push(String::from_str("/var/log/syslog"));
    proof {
        assert(r.deep_view() =~~= seq![
            "lxc"@,
            "exec"@,
            container_name@,
            "--"@,
            "tail"@,
            "-n"@,
            "100"@,
            "/var/log/syslog"@,
        ]);
    }
    r
}

/// The commands that inspect a container's network interfaces and DNS setup.
pub fn network_interface_dns(container_name: &str) -> (r: Vec<Vec<String>>)
    ensures
        r.deep_view() == seq![
            seq!["lxc"@, "exec"@, container_name@, "--"@, "ip"@, "a"@],
            seq!["lxc"@, "exec"@, container_name@, "--"@, "cat"@, "/etc/resolv.conf"@],
        ],
{
    let mut a: Vec<String> = Vec::new();
    a.push(String::from_str("lxc"));
    a.push(String::from_str("exec"));
    a.push(container_name.to_owned());
    a.push(String::from_str("--"));
    a.push(String::from_str("ip"));
    a.push(String::from_str("a"));
    let mut b: Vec<String> = Vec::new();
    b.push(String::from_str("lxc"));
    b.push(String::from_str("exec"));
    b.push(container_name.to_owned());
    b.push(String::from_str("--"));
    b.push(String::from_str("cat"));
    b.push(String::from_str("/etc/resolv.conf"));
    let mut r: Vec<Vec<String>> = Vec::new();
    r.push(a);
    r.push(b);
    proof {
        assert(r.deep_view() =~~= seq![
            seq!["lxc"@, "exec"@, container_name@, "--"@, "ip"@, "a"@],
            seq!["lxc"@, "exec"@, container_name@, "--"@, "cat"@, "/etc/resolv.conf"@],
        ]);
    }
    r
}

/// The command that checks a container's backup archive.
pub fn backup_verification(container_name: &str) -> (r: Vec<String>)
    ensures
        r.deep_view() == seq!["lxc"@, "exec"@, container_name@, "backup.tar.gz"@],
{
    let mut r: Vec<String> = Vec::new();
    r.push(String::from_str("lxc"));
    r.push(String::from_str("exec"));
    r.push(container_name.to_owned());
    r.push(String::from_str("backup.tar.gz"));
    proof {
        assert(r.deep_view() =~~= seq!["lxc"@, "exec"@, container_name@, "backup.tar.gz"@]);
    }
    r
}

/// The commands that snapshot a container and report on it.
pub fn snapshot_management(container_name: &str) -> (r: Vec<Vec<String>>)
    ensures
        r.deep_view() == seq![
            seq!["lxc"@, "snapshot"@, container_name@],
            seq!["lxc"@, "info"@, container_name@],
        ],
{
    let mut a: Vec<String> = Vec::new();
    a.push(String::from_str("lxc"));
    a.push(String::from_str("snapshot"));
    a.push(container_name.to_owned());
    let mut b: Vec<String> = Vec::new();
    b.push(String::from_str("lxc"));
    b.push(String::from_str("info"));
    b.push(container_name.to_owned());
    let mut r: Vec<Vec<String>> = Vec::new();
    r.push(a);
    r.push(b);
    proof {
        assert(r.deep_view() =~~= seq![
            seq!["lxc"@, "snapshot"@, container_name@],
            seq!["lxc"@, "info"@, container_name@],
        ]);
    }
    r
}

/// Reads a process listing captured inside a container.
pub fn lxc_ps_aux(output: &str) -> (r: Vec<Vec<Entry>>)
    ensures
        r.deep_view() == spec_ps_aux(output@),
{
    parse_ps_aux(output)
}

/// Reads a container's disk-space report, a whitespace-separated table.
pub fn integrity_disk_space(output: &str) -> (r: Vec<Vec<Entry>>)
    ensures
        r.deep_view() == spec_tabular_table(output@),
{
    parse_tabular_data_table(output)
}

/// Reads the storage-pool listing, a box-drawn table.
pub fn storage_pool_status(output: &str) -> (r: Vec<Vec<Entry>>)
    ensures
        r.deep_view() == spec_box_table(output@),
{
    parse_box_data_table(output)
}

/// Whether a line carries the running-containers marker.
pub open spec fn line_marked(l: Seq<char>) -> bool {
    exists|j: int| matches_at(l, "RUNNING CONTAINERS:"@, j)
}

/// The position of the first marked line, or the number of lines.
pub open spec fn marked_idx(ls: Seq<Seq<char>>) -> int
    decreases ls.len(),
{
    if ls.len() == 0 {
        0
    } else if line_marked(ls[0]) {
        0
    } else {
        1 + marked_idx(ls.drop_first())
    }
}

proof fn lemma_marked_idx(ls: Seq<Seq<char>>)
    ensures
        0 <= marked_idx(ls) <= ls.len(),
        marked_idx(ls) < ls.len() ==> line_marked(ls[marked_idx(ls)]),
        forall|j: int| 0 <= j < marked_idx(ls) ==> !line_marked(ls[j]),
    decreases ls.len(),
{
    if ls.len() > 0 && !line_marked(ls[0]) {
        let t = ls.drop_first();
        lemma_marked_idx(t);
        assert forall|j: int| 0 <= j < marked_idx(ls) implies !line_marked(ls[j]) by {
            if j > 0 {
                assert(ls[j] == t[j - 1]);
            }
        }
    }
}

/// The number a count field denotes after trimming, or zero where it is not
/// a well-formed number.
pub open spec fn num_or_zero(s: Seq<char>) -> int {
    match spec_parse_u32(spec_trim(s)) {
        Some(v) => v as int,
        None => 0,
    }
}

/// The counts a marked line carries: the two comma-separated numbers in the
/// first parenthesized pair after the marker, each zero where malformed.
pub open spec fn counts_in_line(l: Seq<char>) -> (int, int) {
    let pos = first_match(l, "RUNNING CONTAINERS:"@);
    let after = l.skip(pos);
    let ps = idx_of(after, '(');
    if ps == after.len() {
        (0int, 0int)
    } else {
        let in0 = after.skip(ps + 1);
        let pe = idx_of(in0, ')');
        if pe == in0.len() {
            (0int, 0int)
        } else {
            let parts = split_on(in0.take(pe), ',');
            if parts.len() != 2 {
                (0int, 0int)
            } else {
                (num_or_zero(parts[0]), num_or_zero(parts[1]))
            }
        }
    }
}

/// The running and total container counts an artifact's text reports: those
/// of its first line carrying the running-containers marker, or zero where
/// no line does.
pub open spec fn spec_container_counts(content: Seq<char>) -> (int, int) {
    let ls = spec_lines(content);
    let k = marked_idx(ls);
    if k == ls.len() {
        (0int, 0int)
    } else {
        counts_in_line(ls[k])
    }
}

/// Extracts the running and total container counts from an artifact's text,
/// as `spec_container_counts` describes.
pub fn parse_container_counts(content: &str) -> (r: (usize, usize))
    ensures
        r.0 == spec_container_counts(content@).0,
        r.1 == spec_container_counts(content@).1,
{
    let ghost model = spec_container_counts(content@);
    let ls = lines_of(content);
    let ghost lsdv = ls.deep_view();
    let mut i: usize = 0;
    while i < ls.len()
        invariant
            model == spec_container_counts(content@),
            lsdv == ls.deep_view(),
            lsdv == spec_lines(content@),
            lsdv.len() == ls@.len(),
            i <= ls@.len(),
            forall|k: int| 0 <= k < i ==> !line_marked(lsdv[k]),
        decreases ls@.len() - i,
    {
        let line = ls[i].as_str();
        proof {
            assert(line@ == lsdv[i as int]);
        }
        match find_str(line, "RUNNING CONTAINERS:") {
            None => {
                proof {
                    assert(!line_marked(lsdv[i as int]));
                }
                i = i + 1;
            },
            Some(p) => {
                proof {
                    assert(matches_at(line@, "RUNNING CONTAINERS:"@, p as int));
                    assert(line_marked(lsdv[i as int]));
                    lemma_marked_idx(lsdv);
                    assert(marked_idx(lsdv) == i as int);
                    let w = choose|j: int|
                        matches_at(line@, "RUNNING CONTAINERS:"@, j) && (forall|k: int|
                            0 <= k < j ==> !matches_at(line@, "RUNNING CONTAINERS:"@, k));
                    assert(matches_at(line@, "RUNNING CONTAINERS:"@, p as int) && (forall|k: int|
                        0 <= k < p ==> !matches_at(line@, "RUNNING CONTAINERS:"@, k)));
                    assert(w == p as int);
                    assert(first_match(line@, "RUNNING CONTAINERS:"@) == p as int);
                    assert(model == counts_in_line(line@));
                }
                let n = line.unicode_len();
                let after = substr_string(line, p, n);
                proof {
                    assert(after@ =~= line@.skip(p as int));
                }
                let alen = after.as_str().unicode_len();
                let ps = find_char(after.as_str(), '(');
                if ps == alen {
                    return (0, 0);
                }
                let in0 = substr_string(after.as_str(), ps + 1, alen);
                proof {
                    assert(in0@ =~= after@.skip(ps as int + 1));
                }
                let ilen = in0.as_str().unicode_len();
                let pe = find_char(in0.as_str(), ')');
                if pe == ilen {
                    return (0, 0);
                }
                let inner = substr_string(in0.as_str(), 0, pe);
                proof {
                    assert(inner@ =~= in0@.take(pe as int));
                }
                let parts = split_on_char(inner.as_str(), ',');
                if parts.len() != 2 {
                    return (0, 0);
                }
                let a = trim_of(parts[0].as_str());
                let b = trim_of(parts[1].as_str());
                proof {
                    assert(a@ == spec_trim(split_on(inner@, ',')[0]));
                    assert(b@ == spec_trim(split_on(inner@, ',')[1]));
                }
                let va: u32 = match parse_u32_str(a.as_str()) {
                    Some(v) => v,
                    None => 0,
                };
                let vb: u32 = match parse_u32_str(b.as_str()) {
                    Some(v) => v,
                    None => 0,
                };
                proof {
                    assert(model.0 == va as int && model.1 == vb as int);
                }
                return (va as usize, vb as usize);
            },
        }
    }
    proof {
        lemma_marked_idx(lsdv);
        assert(marked_idx(lsdv) == lsdv.len());
    }
    (0, 0)
}

/// The machine's name as the `hostname` tool reports it, with the trailing
/// newline character removed; empty output stays empty.
pub fn get_hostname(output: &str) -> (r: String)
    ensures
        output@.len() == 0 ==> r@ == output@,
        output@.len() > 0 ==> r@ == output@.drop_last(),
{
    let n = output.unicode_len();
    if n == 0 {
        let r = output.to_owned();
        return r;
    }
    let r = substr_string(output, 0, n - 1);
    proof {
        assert(output@.subrange(0, n - 1) =~= output@.drop_last());
    }
    r
}

} // verus!
