use vstd::prelude::*;

use crate::metadata::{MetaData, MetaDataView};
use crate::naming::{
    decimal, decimal_string, generate_name_on_disk, lemma_resolved_is_free, names_of, resolved,
};

verus! {

/// What a link resolves to: where it points, the name the server gives the
/// file, its length in bytes, and whether the server serves byte ranges.
pub struct Url {
    pub link: String,
    pub filename: String,
    pub content_length: usize,
    pub range_support: bool,
}

/// One download: the resource, where it is stored, how many bytes of it are
/// on disk, whether it may proceed and whether it is done.
pub struct File2Dl {
    pub url: Url,
    pub name_on_disk: String,
    pub dl_dir: String,
    pub size_on_disk: usize,
    pub running: bool,
    pub complete: bool,
}

/// The failures that the session's own rules detect.
#[derive(PartialEq, Eq, Structural, Debug, Clone, Copy)]
pub enum File2DlError {
    /// A chunk would take the download past its content length.
    ChunkExceedsLength,
    /// The response ended before the content length was reached.
    StreamEndedEarly,
    /// A file on disk is longer than its record's content length.
    SizeExceedsLength,
}

/// The request a run makes.
pub enum Request {
    /// Nothing is left to fetch.
    Skip,
    /// A plain request for the whole resource.
    Plain,
    /// A request carrying this `Range` header value.
    Ranged(String),
}

/// The value of the `Range` header asking for `start` up to `end`.
pub open spec fn range_value(start: nat, end: nat) -> Seq<char> {
    seq!['b', 'y', 't', 'e', 's', '='] + decimal(start) + seq!['-'] + decimal(end)
}

/// `f` with its running flag flipped and all else kept.
pub open spec fn switched(f: File2Dl) -> File2Dl {
    File2Dl { running: !f.running, ..f }
}

/// `f` is the session rebuilt in directory `dir`, holding `taken`, from record
/// `m` and the size `size` of the file that the record names.
pub open spec fn restores(
    f: File2Dl,
    dir: Seq<char>,
    m: MetaDataView,
    size: nat,
    taken: Set<Seq<char>>,
) -> bool {
    &&& f.url.link@ == m.link
    &&& f.url.filename@ == m.url_name
    &&& f.url.content_length == m.content_length
    &&& f.url.range_support == m.range_support
    &&& f.dl_dir@ == dir
    &&& f.name_on_disk@ == if m.range_support {
        m.name_on_disk
    } else {
        resolved(m.name_on_disk, taken)
    }
    &&& f.size_on_disk == size
    &&& !f.running
    &&& f.complete == (size == m.content_length)
}

/// `g` is `f` started over from byte zero; bytes already written under the
/// current name move it to a name that the directory, holding `taken`, does
/// not hold.
pub open spec fn restarted(f: File2Dl, g: File2Dl, taken: Set<Seq<char>>) -> bool {
    &&& g.url == f.url
    &&& g.dl_dir == f.dl_dir
    &&& g.running == f.running
    &&& g.size_on_disk == 0
    &&& !g.complete
    &&& f.size_on_disk == 0 ==> g.name_on_disk == f.name_on_disk
    &&& f.size_on_disk > 0 ==> g.name_on_disk@ == resolved(f.name_on_disk@, taken)
}

/// The size of a file on disk, a missing file counting as empty.
pub open spec fn size_or_zero(size: Option<usize>) -> nat {
    match size {
        Some(n) => n as nat,
        None => 0,
    }
}

/// The outcome of rebuilding a session from record `m`.
pub open spec fn restored_ok(
    r: Result<File2Dl, File2DlError>,
    dir: Seq<char>,
    m: MetaDataView,
    size: Option<usize>,
    taken: Set<Seq<char>>,
) -> bool {
    match r {
        Ok(f) => size_or_zero(size) <= m.content_length && f.wf() && restores(
            f,
            dir,
            m,
            size_or_zero(size),
            taken,
        ),
        Err(e) => size_or_zero(size) > m.content_length && e == File2DlError::SizeExceedsLength,
    }
}

/// Flipping the running flag twice gives back the session as it was.
pub proof fn lemma_switch_twice(f: File2Dl)
    ensures
        switched(switched(f)) == f,
{
}

/// In every well-formed session, and so after every successful run,
/// the download is complete exactly when all bytes of the resource are counted.
pub proof fn lemma_complete_iff_all_written(f: File2Dl)
    requires
        f.wf(),
    ensures
        f.complete <==> f.size_on_disk == f.url.content_length,
{
}

/// A session rebuilt from a record whose file already has the recorded
/// length is complete, so its run asks for nothing.
pub proof fn lemma_restored_full_file_is_complete(
    r: Result<File2Dl, File2DlError>,
    dir: Seq<char>,
    m: MetaDataView,
    size: Option<usize>,
    taken: Set<Seq<char>>,
)
    requires
        restored_ok(r, dir, m, size, taken),
        size_or_zero(size) == m.content_length,
    ensures
        r matches Ok(f) && f.complete && f.size_on_disk == m.content_length,
{
}

/// A session without range support rebuilt from a record whose file is
/// present gets a name that differs from the recorded one and that the
/// directory does not hold.
pub proof fn lemma_restored_without_ranges_is_renamed(
    f: File2Dl,
    dir: Seq<char>,
    m: MetaDataView,
    size: nat,
    contents: Seq<String>,
)
    requires
        restores(f, dir, m, size, names_of(contents)),
        !m.range_support,
        names_of(contents).contains(m.name_on_disk),
    ensures
        f.name_on_disk@ != m.name_on_disk,
        !names_of(contents).contains(f.name_on_disk@),
{
    lemma_resolved_is_free(m.name_on_disk, contents);
}

impl File2Dl {
    /// No more bytes are counted than the resource has, and the download is
    /// complete exactly when all of them are.
    pub open spec fn wf(&self) -> bool {
        &&& self.size_on_disk <= self.url.content_length
        &&& self.complete == (self.size_on_disk == self.url.content_length)
    }

    /// A fresh session for `url`, stored in `download_path`, which holds
    /// `dir_contents`, under a name that the directory does not hold yet.
    pub fn new(url: Url, download_path: &str, dir_contents: &Vec<String>) -> (r: File2Dl)
        ensures
            r.wf(),
            r.url == url,
            r.name_on_disk@ == resolved(url.filename@, names_of(dir_contents@)),
            r.dl_dir@ == download_path@,
            r.size_on_disk == 0,
            !r.running,
            r.complete == (url.content_length == 0),
    {
        let name_on_disk = generate_name_on_disk(url.filename.as_str(), dir_contents);
        let complete = url.content_length == 0;
        File2Dl {
            url,
            name_on_disk,
            dl_dir: download_path.to_owned(),
            size_on_disk: 0,
            running: false,
            complete,
        }
    }

    /// Flips the running flag.
    pub fn switch_status(&mut self)
        ensures
            *final(self) == switched(*old(self)),
    {
        self.running = !self.running;
    }

    /// Decides the request of a run. A complete session asks for nothing; a
    /// session whose server serves ranges asks for the bytes from what is on
    /// disk to the content length; any other starts over from byte zero, under
    /// a fresh name when bytes were already written under the current one.
    pub fn plan_request(&mut self, dir_contents: &Vec<String>) -> (r: Request)
        requires
            old(self).wf(),
        ensures
            final(self).wf(),
            r is Skip <==> old(self).complete,
            old(self).complete ==> *final(self) == *old(self),
            !old(self).complete && old(self).url.range_support ==> *final(self) == *old(self) && (
            r matches Request::Ranged(v) && v@ == range_value(
                old(self).size_on_disk as nat,
                old(self).url.content_length as nat,
            )),
            !old(self).complete && !old(self).url.range_support ==> r is Plain && restarted(
                *old(self),
                *final(self),
                names_of(dir_contents@),
            ),
    {
        if self.complete {
            return Request::Skip;
        }
        if self.url.range_support {
            proof {
                reveal_strlit("bytes=");
                reveal_strlit("-");
            }
            let mut v = "bytes=".to_owned();
            let start = decimal_string(self.size_on_disk);
            let end = decimal_string(self.url.content_length);
            v.append(start.as_str());
            v.append("-");
            v.append(end.as_str());
            assert(v@ =~= range_value(
                self.size_on_disk as nat,
                self.url.content_length as nat,
            ));
            return Request::Ranged(v);
        }
        if self.size_on_disk > 0 {
            let fresh = generate_name_on_disk(self.name_on_disk.as_str(), dir_contents);
            self.name_on_disk = fresh;
            self.size_on_disk = 0;
        }
        Request::Plain
    }

    /// Counts a chunk of `len` bytes written to the file. A chunk that would
    /// go past the content length is refused and nothing changes.
    pub fn record_chunk(&mut self, len: usize) -> (r: Result<(), File2DlError>)
        requires
            old(self).wf(),
        ensures
            final(self).wf(),
            r is Ok <==> old(self).size_on_disk + len <= old(self).url.content_length,
            r is Ok ==> *final(self) == (File2Dl {
                size_on_disk: (old(self).size_on_disk + len) as usize,
                complete: old(self).size_on_disk + len == old(self).url.content_length,
                ..*old(self)
            }),
            r matches Err(e) ==> e == File2DlError::ChunkExceedsLength && *final(self) == *old(
                self,
            ),
    {
        if len > self.url.content_length - self.size_on_disk {
            return Err(File2DlError::ChunkExceedsLength);
        }
        self.size_on_disk = self.size_on_disk + len;
        self.complete = self.size_on_disk == self.url.content_length;
        Ok(())
    }

    /// Ends a run whose response is exhausted: it succeeds exactly when all
    /// bytes of the resource are on disk.
    pub fn finish(&self) -> (r: Result<(), File2DlError>)
        requires
            self.wf(),
        ensures
            r is Ok <==> self.size_on_disk == self.url.content_length,
            r is Ok ==> self.complete,
            r matches Err(e) ==> e == File2DlError::StreamEndedEarly,
    {
        if self.size_on_disk == self.url.content_length {
            Ok(())
        } else {
            Err(File2DlError::StreamEndedEarly)
        }
    }

    /// Rebuilds the session described by record `m` in directory `dir`, which
    /// holds `dir_contents`, where `size_on_disk` is the size of the file that
    /// the record names (`None` when it is missing). Without range support the
    /// download must start over, so it gets a name that the directory does not
    /// hold.
    pub fn from_record(
        dir: &str,
        m: &MetaData,
        size_on_disk: Option<usize>,
        dir_contents: &Vec<String>,
    ) -> (r: Result<File2Dl, File2DlError>)
        ensures
            restored_ok(r, dir@, m@, size_on_disk, names_of(dir_contents@)),
    {
        let size: usize = match size_on_disk {
            Some(n) => n,
            None => 0,
        };
        if size > m.content_length {
            return Err(File2DlError::SizeExceedsLength);
        }
        let name_on_disk = if m.range_support {
            m.name_on_disk.clone()
        } else {
            generate_name_on_disk(m.name_on_disk.as_str(), dir_contents)
        };
        let url = Url {
            link: m.link.clone(),
            filename: m.url_name.clone(),
            content_length: m.content_length,
            range_support: m.range_support,
        };
        Ok(
            File2Dl {
                url,
                name_on_disk,
                dl_dir: dir.to_owned(),
                size_on_disk: size,
                running: false,
                complete: size == m.content_length,
            },
        )
    }

    /// Rebuilds every session of directory `dir` from its records, each given
    /// with the size of the file it names. A record that cannot be taken up
    /// gives an error in its place and does not stop the others.
    pub fn from(
        dir: &str,
        records: &Vec<(MetaData, Option<usize>)>,
        dir_contents: &Vec<String>,
    ) -> (r: Vec<Result<File2Dl, File2DlError>>)
        ensures
            r@.len() == records@.len(),
            forall|i: int|
                0 <= i < records@.len() ==> restored_ok(
                    #[trigger] r@[i],
                    dir@,
                    records@[i].0@,
                    records@[i].1,
                    names_of(dir_contents@),
                ),
    {
        let mut r: Vec<Result<File2Dl, File2DlError>> = Vec::new();
        let mut i: usize = 0;
        while i < records.len()
            invariant
                i <= records@.len(),
                r@.len() == i,
                forall|j: int|
                    0 <= j < i ==> restored_ok(
                        #[trigger] r@[j],
                        dir@,
                        records@[j].0@,
                        records@[j].1,
                        names_of(dir_contents@),
                    ),
            decreases records.len() - i,
        {
            let one = File2Dl::from_record(dir, &records[i].0, records[i].1, dir_contents);
            r.push(one);
            i = i + 1;
        }
        r
    }
}

} // verus!
