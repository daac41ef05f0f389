//! Archive traversal and the whole conversion.
//!
//! The compressed container's bytes decode to a list of named entries in the
//! container's own index order. Each entry is parsed, transformed and turned
//! into one performance; the first failing entry aborts the run. The final
//! document orders performances by id, so nothing depends on the order the
//! container yields its entries in.

use vstd::prelude::*;

use crate::ident::spec_agent_id;
use crate::ident::extract_agent_id;
use crate::table::RawRecord;
use crate::table::RecModel;
use crate::table::csv_rows_of;
use crate::table::spec_records;
use crate::table::parse_records;
use crate::table::rec_parsed;
use crate::table::lemma_records_parsed;
use crate::transform::Vec3;
use crate::transform::TripleModel;
use crate::transform::tr_model;
use crate::transform::triple_parsed;
use crate::transform::spec_transform;
use crate::transform::transform_records;
use crate::transform::lemma_transform_bounded;
use crate::show::Performance;
use crate::show::PerfModel;
use crate::show::Show;
use crate::show::ShowModel;
use crate::show::spec_performance;
use crate::show::spec_show_of;
use crate::show::make_performance;
use crate::show::assemble_show;
use crate::show::sorted_by_id;
use crate::ConvertError;

verus! {

/// One named blob of the container.
pub struct Entry {
    pub name: Vec<u8>,
    pub data: Vec<u8>,
}

impl View for Entry {
    type V = (Seq<u8>, Seq<u8>);

    open spec fn view(&self) -> (Seq<u8>, Seq<u8>) {
        (self.name@, self.data@)
    }
}

impl DeepView for Entry {
    type V = (Seq<u8>, Seq<u8>);

    open spec fn deep_view(&self) -> (Seq<u8>, Seq<u8>) {
        self.view()
    }
}

/// What the container's bytes decode to: its named entries in index order,
/// or nothing where the bytes are not a readable archive.
pub uninterp spec fn archive_entries_of(b: Seq<u8>) -> Option<Seq<(Seq<u8>, Seq<u8>)>>;

/// Relies on zip's `ZipArchive` (`new`, `len`, `by_index`, `ZipFile::name`)
/// and std's `Read::read_to_end`: the entries of the archive bytes, name and
/// decompressed content, in index order — a function of the bytes alone.
/// Any failure to open or read stands for an unreadable archive.
#[verifier::external_body]
fn zip_entries(data: &Vec<u8>) -> (r: Result<Vec<Entry>, ConvertError>)
    ensures
        match r {
            Ok(es) => archive_entries_of(data@) == Some(es.deep_view()),
            Err(e) => archive_entries_of(data@) is None && e == ConvertError::ArchiveRead,
        },
{
    let mut archive = zip::ZipArchive::new(std::io::Cursor::new(data.as_slice())).map_err(
        |_| ConvertError::ArchiveRead,
    )?;
    let mut out: Vec<Entry> = Vec::new();
    for i in 0..archive.len() {
        let mut f = archive.by_index(i).map_err(|_| ConvertError::ArchiveRead)?;
        let name = f.name().to_string().into_bytes();
        let mut buf: Vec<u8> = Vec::new();
        std::io::Read::read_to_end(&mut f, &mut buf).map_err(|_| ConvertError::ArchiveRead)?;
        out.push(Entry { name, data: buf });
    }
    Ok(out)
}

/// Open the container and list its entries.
pub fn read_archive(data: &Vec<u8>) -> (r: Result<Vec<Entry>, ConvertError>)
    ensures
        match r {
            Ok(es) => archive_entries_of(data@) == Some(es.deep_view()),
            Err(e) => archive_entries_of(data@) is None && e == ConvertError::ArchiveRead,
        },
{
    zip_entries(data)
}

/// What one entry parses to before any transform: the agent's zero-indexed
/// id and its records. The table is read first, then every row, then the
/// name, and an entry without data rows is refused last.
pub open spec fn spec_parse_entry(name: Seq<u8>, content: Seq<u8>) -> Result<
    (int, Seq<RecModel>),
    ConvertError,
> {
    match csv_rows_of(content) {
        None => Err(ConvertError::TableSyntax),
        Some(rows) => match spec_records(rows) {
            Err(e) => Err(e),
            Ok(recs) => match spec_agent_id(name) {
                Err(e) => Err(e),
                Ok(id) => if recs.len() == 0 {
                    Err(ConvertError::EntryEmpty)
                } else {
                    Ok((id, recs))
                },
            },
        },
    }
}

/// Parse one entry: its agent id and its raw records.
pub fn parse_entry(entry: &Entry) -> (r: Result<(u64, Vec<RawRecord>), ConvertError>)
    ensures
        match r {
            Ok(p) => spec_parse_entry(entry@.0, entry@.1) == Ok::<
                (int, Seq<RecModel>),
                ConvertError,
            >((p.0 as int, p.1.deep_view())) && p.1.deep_view().len() >= 1 && (forall|i: int|
                0 <= i < p.1.deep_view().len() ==> rec_parsed(#[trigger] p.1.deep_view()[i])),
            Err(e) => spec_parse_entry(entry@.0, entry@.1) == Err::<
                (int, Seq<RecModel>),
                ConvertError,
            >(e),
        },
{
    let recs = match parse_records(&entry.data) {
        Ok(recs) => recs,
        Err(e) => {
            return Err(e);
        },
    };
    let id = match extract_agent_id(&entry.name) {
        Ok(id) => id,
        Err(e) => {
            return Err(e);
        },
    };
    if recs.len() == 0 {
        return Err(ConvertError::EntryEmpty);
    }
    proof {
        let rows = csv_rows_of(entry@.1)->Some_0;
        lemma_records_parsed(rows);
    }
    Ok((id, recs))
}

/// The performance one entry denotes under the optional transform.
pub open spec fn spec_entry_perf(
    name: Seq<u8>,
    content: Seq<u8>,
    tr: Option<TripleModel>,
) -> Result<PerfModel, ConvertError> {
    match spec_parse_entry(name, content) {
        Err(e) => Err(e),
        Ok(p) => Ok(spec_performance(p.0, spec_transform(p.1, tr))),
    }
}

/// Parse, transform and summarize one entry.
pub fn entry_performance(entry: &Entry, translation: &Option<Vec3>) -> (r: Result<
    Performance,
    ConvertError,
>)
    requires
        match translation {
            Some(t) => triple_parsed(t@),
            None => true,
        },
    ensures
        match r {
            Ok(p) => spec_entry_perf(entry@.0, entry@.1, tr_model(*translation)) == Ok::<
                PerfModel,
                ConvertError,
            >(p@) && p.payload@.len() == 0,
            Err(e) => spec_entry_perf(entry@.0, entry@.1, tr_model(*translation)) == Err::<
                PerfModel,
                ConvertError,
            >(e),
        },
{
    let (id, recs) = match parse_entry(entry) {
        Ok(p) => p,
        Err(e) => {
            return Err(e);
        },
    };
    proof {
        lemma_transform_bounded(recs.deep_view(), tr_model(*translation));
    }
    let trecs = transform_records(&recs, translation);
    Ok(make_performance(id, &trecs))
}

/// The performances of all entries, in entry order; the first failing entry
/// decides the error.
pub open spec fn spec_perfs(
    entries: Seq<(Seq<u8>, Seq<u8>)>,
    tr: Option<TripleModel>,
) -> Result<Seq<PerfModel>, ConvertError>
    decreases entries.len(),
{
    if entries.len() == 0 {
        Ok(Seq::empty())
    } else {
        match spec_perfs(entries.drop_last(), tr) {
            Err(e) => Err(e),
            Ok(ps) => match spec_entry_perf(entries.last().0, entries.last().1, tr) {
                Err(e) => Err(e),
                Ok(p) => Ok(ps.push(p)),
            },
        }
    }
}

/// A successful run yields exactly one performance per archive entry.
pub proof fn lemma_perfs_len(entries: Seq<(Seq<u8>, Seq<u8>)>, tr: Option<TripleModel>)
    requires
        spec_perfs(entries, tr) is Ok,
    ensures
        spec_perfs(entries, tr)->Ok_0.len() == entries.len(),
    decreases entries.len(),
{
    if entries.len() > 0 {
        lemma_perfs_len(entries.drop_last(), tr);
    }
}

/// A failing prefix decides the whole run's failure.
pub proof fn lemma_perfs_err_prefix(
    entries: Seq<(Seq<u8>, Seq<u8>)>,
    tr: Option<TripleModel>,
    k: int,
)
    requires
        0 <= k <= entries.len(),
        spec_perfs(entries.take(k), tr) is Err,
    ensures
        spec_perfs(entries, tr) == spec_perfs(entries.take(k), tr),
    decreases entries.len() - k,
{
    if k < entries.len() {
        assert(entries.take(k + 1).drop_last() =~= entries.take(k));
        lemma_perfs_err_prefix(entries, tr, k + 1);
    } else {
        assert(entries.take(k) =~= entries);
    }
}

/// The document the container's bytes denote under the optional transform.
pub open spec fn spec_convert(b: Seq<u8>, tr: Option<TripleModel>) -> Result<
    ShowModel,
    ConvertError,
> {
    match archive_entries_of(b) {
        None => Err(ConvertError::ArchiveRead),
        Some(entries) => match spec_perfs(entries, tr) {
            Err(e) => Err(e),
            Ok(ps) => Ok(spec_show_of(ps)),
        },
    }
}

/// Convert a whole container into its show document: every entry parsed and
/// transformed in container order, every failure fatal, and the result's
/// performances ordered ascending by id.
pub fn convert_archive(data: &Vec<u8>, translation: &Option<Vec3>) -> (r: Result<
    Show,
    ConvertError,
>)
    requires
        match translation {
            Some(t) => triple_parsed(t@),
            None => true,
        },
    ensures
        match r {
            Ok(s) => spec_convert(data@, tr_model(*translation)) == Ok::<
                ShowModel,
                ConvertError,
            >(s@) && sorted_by_id(s@.performances),
            Err(e) => spec_convert(data@, tr_model(*translation)) == Err::<
                ShowModel,
                ConvertError,
            >(e),
        },
{
    let entries = match zip_entries(data) {
        Ok(es) => es,
        Err(e) => {
            return Err(e);
        },
    };
    let ghost ges: Seq<(Seq<u8>, Seq<u8>)> = entries.deep_view();
    let mut perfs: Vec<Performance> = Vec::new();
    let mut i: usize = 0;
    proof {
        assert(ges.take(0) =~= Seq::<(Seq<u8>, Seq<u8>)>::empty());
        assert(perfs.deep_view() =~= Seq::<PerfModel>::empty());
    }
    while i < entries.len()
        invariant
            0 <= i <= entries@.len(),
            entries@.len() == ges.len(),
            ges == entries.deep_view(),
            archive_entries_of(data@) == Some(ges),
            match translation {
                Some(t) => triple_parsed(t@),
                None => true,
            },
            spec_perfs(ges.take(i as int), tr_model(*translation)) == Ok::<
                Seq<PerfModel>,
                ConvertError,
            >(perfs.deep_view()),
        decreases entries@.len() - i,
    {
        proof {
            assert(ges.take(i + 1).drop_last() =~= ges.take(i as int));
            assert(ges.take(i + 1).last() == ges[i as int]);
            assert(entries.deep_view()[i as int] == entries@[i as int].deep_view());
        }
        match entry_performance(&entries[i], translation) {
            Ok(p) => {
                perfs.push(p);
                proof {
                    assert(perfs.deep_view() =~= spec_perfs(
                        ges.take(i + 1),
                        tr_model(*translation),
                    )->Ok_0);
                }
            },
            Err(e) => {
                proof {
                    lemma_perfs_err_prefix(ges, tr_model(*translation), i + 1);
                }
                return Err(e);
            },
        }
        i = i + 1;
    }
    proof {
        assert(ges.take(ges.len() as int) =~= ges);
    }
    Ok(assemble_show(perfs))
}

} // verus!
