//! Decoder for the line records that the extraction tool prints: fields
//! separated by a token, trimmed, with the literal `NA` standing for an
//! absent field.

use vstd::prelude::*;
use crate::text::{chars_of, lines_of, lines_spec, same_chars, split_on, split_spec, string_of, trim, trimmed};

verus! {

/// The token printed between two fields of a record.
pub open spec fn field_separator() -> Seq<char> {
    seq!['S', 'P', 'L', 'I', 'T', 'A', 'T', 'T', 'H', 'I', 'S', 'P', 'O', 'I', 'N', 'T']
}

fn separator() -> (r: Vec<char>)
    ensures
        r@ == field_separator(),
{
    let r = vec!['S', 'P', 'L', 'I', 'T', 'A', 'T', 'T', 'H', 'I', 'S', 'P', 'O', 'I', 'N', 'T'];
    assert(r@ =~= field_separator());
    r
}

/// The text the tool prints for a field it has no value for.
pub open spec fn absent_marker() -> Seq<char> {
    seq!['N', 'A']
}

/// The value of one raw field: trimmed, and absent when it reads `NA`.
pub open spec fn field_value(raw: Seq<char>) -> Option<Seq<char>> {
    if trimmed(raw) == absent_marker() {
        None
    } else {
        Some(trimmed(raw))
    }
}

/// The view of an optional string.
pub open spec fn opt_view(o: Option<String>) -> Option<Seq<char>> {
    match o {
        Some(s) => Some(s@),
        None => None,
    }
}

/// The fields of one record line, when it has exactly `arity` of them.
pub open spec fn record_spec(line: Seq<char>, arity: nat) -> Option<Seq<Option<Seq<char>>>> {
    let parts = split_spec(line, field_separator());
    if parts.len() == arity {
        Some(parts.map_values(|p: Seq<char>| field_value(p)))
    } else {
        None
    }
}

/// Decodes one raw field.
pub fn decode_field(raw: &Vec<char>) -> (r: Option<String>)
    ensures
        opt_view(r) == field_value(raw@),
{
    let t = trim(raw);
    let na = vec!['N', 'A'];
    assert(na@ =~= absent_marker());
    if same_chars(&t, &na) {
        None
    } else {
        Some(string_of(&t))
    }
}

/// Decodes one record line with `arity` fields.
pub fn decode_record(line: &Vec<char>, arity: usize) -> (r: Option<Vec<Option<String>>>)
    ensures
        match r {
            Some(v) => record_spec(line@, arity as nat) == Some(
                v@.map_values(|o: Option<String>| opt_view(o)),
            ),
            None => record_spec(line@, arity as nat) is None,
        },
        r matches Some(v) ==> v.len() == arity,
{
    let sep = separator();
    let parts = split_on(line, &sep);
    let ghost pv = parts@.map_values(|p: Vec<char>| p@);
    if parts.len() != arity {
        return None;
    }
    let mut out: Vec<Option<String>> = Vec::new();
    let mut i: usize = 0;
    while i < parts.len()
        invariant
            i <= parts.len(),
            pv == parts@.map_values(|p: Vec<char>| p@),
            out@.map_values(|o: Option<String>| opt_view(o)) == pv.take(i as int).map_values(
                |p: Seq<char>| field_value(p),
            ),
        decreases parts.len() - i,
    {
        let f = decode_field(&parts[i]);
        assert(pv[i as int] == parts@[i as int]@);
        let ghost before = out@;
        out.push(f);
        assert(out@ =~= before.push(f));
        assert(out@.map_values(|o: Option<String>| opt_view(o)) =~= before.map_values(
            |o: Option<String>| opt_view(o),
        ).push(opt_view(f)));
        assert(pv.take(i + 1) =~= pv.take(i as int).push(pv[i as int]));
        assert(out@.map_values(|o: Option<String>| opt_view(o)) =~= pv.take(i + 1).map_values(
            |p: Seq<char>| field_value(p),
        ));
        i = i + 1;
    }
    assert(pv.take(i as int) =~= pv);
    Some(out)
}


/// What the filename-resolution mode prints for one item: channel id,
/// channel name, upload date, title and item id.
pub struct FilenameFields {
    pub channel_id: Option<String>,
    pub channel_name: Option<String>,
    pub upload_date: Option<String>,
    pub title: Option<String>,
    pub video_id: Option<String>,
}

impl FilenameFields {
    /// The fields, in the order the tool prints them.
    pub open spec fn fields(&self) -> Seq<Option<Seq<char>>> {
        seq![
            opt_view(self.channel_id),
            opt_view(self.channel_name),
            opt_view(self.upload_date),
            opt_view(self.title),
            opt_view(self.video_id),
        ]
    }
}

/// The record in the whole output of the filename-resolution mode.
pub open spec fn filename_record(output: Seq<char>) -> Option<Seq<Option<Seq<char>>>> {
    record_spec(trimmed(output), 5)
}

/// Decodes the output of the filename-resolution mode.
pub fn decode_filename_fields(output: &str) -> (r: Option<FilenameFields>)
    ensures
        match r {
            Some(f) => filename_record(output@) == Some(f.fields()),
            None => filename_record(output@) is None,
        },
{
    let text = trim(&chars_of(output));
    match decode_record(&text, 5) {
        None => None,
        Some(v) => {
            let ghost fv = v@.map_values(|o: Option<String>| opt_view(o));
            let mut v = v;
            let video_id = v.pop().unwrap();
            let title = v.pop().unwrap();
            let upload_date = v.pop().unwrap();
            let channel_name = v.pop().unwrap();
            let channel_id = v.pop().unwrap();
            let f = FilenameFields { channel_id, channel_name, upload_date, title, video_id };
            assert(f.fields() =~= fv);
            Some(f)
        },
    }
}

/// One line of the channel-listing mode: channel id, channel name, item
/// URL, upload date, title and item id.
pub struct ListingRecord {
    pub channel_id: Option<String>,
    pub channel_name: Option<String>,
    pub url: Option<String>,
    pub upload_date: Option<String>,
    pub title: Option<String>,
    pub video_id: Option<String>,
}

impl ListingRecord {
    /// The fields, in the order the tool prints them.
    pub open spec fn fields(&self) -> Seq<Option<Seq<char>>> {
        seq![
            opt_view(self.channel_id),
            opt_view(self.channel_name),
            opt_view(self.url),
            opt_view(self.upload_date),
            opt_view(self.title),
            opt_view(self.video_id),
        ]
    }
}

/// The view of one decoded listing line.
pub open spec fn listing_view(r: Option<ListingRecord>) -> Option<Seq<Option<Seq<char>>>> {
    match r {
        Some(rec) => Some(rec.fields()),
        None => None,
    }
}

/// The records of the channel-listing output, one per line; `None` for a
/// line without exactly six fields.
pub open spec fn listing_spec(output: Seq<char>) -> Seq<Option<Seq<Option<Seq<char>>>>> {
    lines_spec(output).map_values(|l: Seq<char>| record_spec(l, 6))
}

/// Decodes one line of the channel-listing mode.
pub fn decode_listing_line(line: &Vec<char>) -> (r: Option<ListingRecord>)
    ensures
        listing_view(r) == record_spec(line@, 6),
{
    match decode_record(line, 6) {
        None => None,
        Some(v) => {
            let ghost fv = v@.map_values(|o: Option<String>| opt_view(o));
            let mut v = v;
            let video_id = v.pop().unwrap();
            let title = v.pop().unwrap();
            let upload_date = v.pop().unwrap();
            let url = v.pop().unwrap();
            let channel_name = v.pop().unwrap();
            let channel_id = v.pop().unwrap();
            let rec = ListingRecord { channel_id, channel_name, url, upload_date, title, video_id };
            assert(rec.fields() =~= fv);
            Some(rec)
        },
    }
}

/// Decodes the whole output of the channel-listing mode.
pub fn decode_listing(output: &str) -> (r: Vec<Option<ListingRecord>>)
    ensures
        r@.map_values(|x: Option<ListingRecord>| listing_view(x)) == listing_spec(output@),
{
    let lines = lines_of(&chars_of(output));
    let ghost lv = lines@.map_values(|p: Vec<char>| p@);
    let mut out: Vec<Option<ListingRecord>> = Vec::new();
    let mut i: usize = 0;
    while i < lines.len()
        invariant
            i <= lines.len(),
            lv == lines@.map_values(|p: Vec<char>| p@),
            lv == lines_spec(output@),
            out@.map_values(|x: Option<ListingRecord>| listing_view(x)) == lv.take(
                i as int,
            ).map_values(|l: Seq<char>| record_spec(l, 6)),
        decreases lines.len() - i,
    {
        let rec = decode_listing_line(&lines[i]);
        assert(lv[i as int] == lines@[i as int]@);
        let ghost before = out@;
        out.push(rec);
        assert(out@ =~= before.push(rec));
        assert(out@.map_values(|x: Option<ListingRecord>| listing_view(x)) =~= before.map_values(
            |x: Option<ListingRecord>| listing_view(x),
        ).push(listing_view(rec)));
        assert(lv.take(i + 1) =~= lv.take(i as int).push(lv[i as int]));
        assert(out@.map_values(|x: Option<ListingRecord>| listing_view(x)) =~= lv.take(
            i + 1,
        ).map_values(|l: Seq<char>| record_spec(l, 6)));
        i = i + 1;
    }
    assert(lv.take(i as int) =~= lv);
    out
}

} // verus!
