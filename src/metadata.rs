use vstd::prelude::*;

use crate::file2dl::File2Dl;

verus! {

/// The record kept beside a download so that it can be taken up again
/// after a restart: what was asked for, not how far it got.
pub struct MetaData {
    pub link: String,
    pub name_on_disk: String,
    pub url_name: String,
    pub content_length: usize,
    pub range_support: bool,
}

/// The contents of a [`MetaData`] record.
pub struct MetaDataView {
    pub link: Seq<char>,
    pub name_on_disk: Seq<char>,
    pub url_name: Seq<char>,
    pub content_length: usize,
    pub range_support: bool,
}

impl View for MetaData {
    type V = MetaDataView;

    open spec fn view(&self) -> MetaDataView {
        MetaDataView {
            link: self.link@,
            name_on_disk: self.name_on_disk@,
            url_name: self.url_name@,
            content_length: self.content_length,
            range_support: self.range_support,
        }
    }
}

/// The suffix that marks a record file.
pub open spec fn record_suffix() -> Seq<char> {
    seq!['.', 'm', 'e', 't', 'a', 'd', 'l']
}

/// Whether `name` is the name of a record file.
pub open spec fn is_record_name(name: Seq<char>) -> bool {
    name.len() >= record_suffix().len() && name.subrange(
        name.len() - record_suffix().len(),
        name.len() as int,
    ) == record_suffix()
}

/// The record of what session `f` asked for.
pub open spec fn snapshot(f: File2Dl) -> MetaDataView {
    MetaDataView {
        link: f.url.link@,
        name_on_disk: f.name_on_disk@,
        url_name: f.url.filename@,
        content_length: f.url.content_length,
        range_support: f.url.range_support,
    }
}

/// The record on disk after a run of `f` found `on_disk` there: a record
/// already present stays as it is, else the snapshot of `f` is written.
pub open spec fn record_after_run(on_disk: Option<MetaDataView>, f: File2Dl) -> Option<
    MetaDataView,
> {
    match on_disk {
        Some(m) => Some(m),
        None => Some(snapshot(f)),
    }
}

/// The record written by the first run of a session is the one that stays:
/// a later run, by the same session in any later state, leaves it as it was.
pub proof fn lemma_record_first_write_wins(first: File2Dl, later: File2Dl)
    ensures
        record_after_run(record_after_run(None, first), later) == Some(snapshot(first)),
{
}

/// The name of the record file kept for the download stored as `name_on_disk`.
pub fn record_file_name(name_on_disk: &str) -> (r: String)
    ensures
        r@ == name_on_disk@ + record_suffix(),
        is_record_name(r@),
{
    proof {
        reveal_strlit(".metadl");
    }
    let mut r = name_on_disk.to_owned();
    r.append(".metadl");
    assert(r@.subrange(r@.len() - 7, r@.len() as int) =~= record_suffix());
    r
}

/// Whether `name` names a record file.
pub fn is_record_file(name: &str) -> (r: bool)
    ensures
        r == is_record_name(name@),
{
    let n = name.unicode_len();
    if n < 7 {
        return false;
    }
    let r = name.get_char(n - 7) == '.' && name.get_char(n - 6) == 'm' && name.get_char(n - 5)
        == 'e' && name.get_char(n - 4) == 't' && name.get_char(n - 3) == 'a' && name.get_char(n - 2)
        == 'd' && name.get_char(n - 1) == 'l';
    proof {
        let tail = name@.subrange(n - 7, n as int);
        if r {
            assert(tail =~= record_suffix());
        } else if tail == record_suffix() {
            assert(tail[0] == name@[n - 7]);
            assert(tail[1] == name@[n - 6]);
            assert(tail[2] == name@[n - 5]);
            assert(tail[3] == name@[n - 4]);
            assert(tail[4] == name@[n - 3]);
            assert(tail[5] == name@[n - 2]);
            assert(tail[6] == name@[n - 1]);
        }
    }
    r
}

/// The record files of a directory listing, in the order listed.
pub fn get_metadata_files(dir_contents: &Vec<String>) -> (r: Vec<String>)
    ensures
        r@.map_values(|s: String| s@) == dir_contents@.map_values(|s: String| s@).filter(
            |s: Seq<char>| is_record_name(s),
        ),
{
    let ghost views = dir_contents@.map_values(|s: String| s@);
    let ghost pred = |s: Seq<char>| is_record_name(s);
    let mut r: Vec<String> = Vec::new();
    let mut i: usize = 0;
    while i < dir_contents.len()
        invariant
            i <= dir_contents@.len(),
            views == dir_contents@.map_values(|s: String| s@),
            pred == (|s: Seq<char>| is_record_name(s)),
            r@.map_values(|s: String| s@) == views.take(i as int).filter(pred),
        decreases dir_contents.len() - i,
    {
        proof {
            reveal(Seq::filter);
            assert(views.take(i + 1).drop_last() =~= views.take(i as int));
            assert(views.take(i + 1).last() == dir_contents@[i as int]@);
        }
        if is_record_file(dir_contents[i].as_str()) {
            let name = dir_contents[i].clone();
            r.push(name);
            assert(r@.map_values(|s: String| s@) =~= views.take(i as int).filter(pred).push(
                dir_contents@[i as int]@,
            ));
        }
        i = i + 1;
    }
    assert(views.take(i as int) =~= views);
    r
}

/// The record that a run of `f` writes, `None` where a record is already
/// `present`: the first write is the only one.
pub fn init_metadata(f: &File2Dl, present: bool) -> (r: Option<MetaData>)
    ensures
        r is Some <==> !present,
        r matches Some(m) ==> m@ == snapshot(*f),
{
    if present {
        return None;
    }
    Some(
        MetaData {
            link: f.url.link.clone(),
            name_on_disk: f.name_on_disk.clone(),
            url_name: f.url.filename.clone(),
            content_length: f.url.content_length,
            range_support: f.url.range_support,
        },
    )
}

} // verus!
