//! File metadata with named data streams: the unnamed `$DATA` attribute is
//! the file's content, every named one an alternate data stream.

use vstd::prelude::*;
use crate::bytes::{le16, le32, read_u16_le, read_u32_le};
use crate::ntfs::{AttributeType, DataRun, NtfsError, RunView, StatView};
use crate::ntfs::attr::{
    attr_name_spec, attr_views, attributes_spec, empty_stat, filename_at, parse_attr_name, parse_attributes,
    parse_attributes_ok, parse_filename, resident_value, resident_value_fits, runs_bytes, sum_run_bytes,
};
use crate::ntfs::boot::BootSector;
use crate::ntfs::runs::{data_runs_spec, parse_data_runs, runs_decode};

verus! {

/// A named data stream of a file.
pub struct AlternateDataStream {
    pub name: String,
    pub size: u64,
    pub data: DataRun,
}

/// A named data stream by value: its name, size and data.
pub type StreamView = (Seq<char>, u64, RunView);

impl View for AlternateDataStream {
    type V = StreamView;

    open spec fn view(&self) -> StreamView {
        (self.name@, self.size, self.data@)
    }
}

/// The metadata of one MFT record, with its alternate data streams.
pub struct StreamStat {
    pub is_directory: bool,
    pub size: u64,
    pub name: Option<String>,
    pub data_runs: Vec<DataRun>,
    pub index_root: Option<Vec<u8>>,
    pub alternate_data_streams: Vec<AlternateDataStream>,
}

impl View for StreamStat {
    type V = (StatView, Seq<StreamView>);

    open spec fn view(&self) -> (StatView, Seq<StreamView>) {
        (
            StatView {
                is_directory: self.is_directory,
                size: self.size,
                name: match self.name {
                    Some(n) => Some(n@),
                    None => None,
                },
                data_runs: self.data_runs@.map_values(|d: DataRun| d@),
                index_root: match self.index_root {
                    Some(v) => Some(v@),
                    None => None,
                },
            },
            self.alternate_data_streams@.map_values(|s: AlternateDataStream| s@),
        )
    }
}

/// A data stream found: the unnamed one becomes the file's content and
/// size, a named one is added to the alternate streams.
pub open spec fn add_stream(st: (StatView, Seq<StreamView>), d: Seq<u8>, size: u64, run: RunView) -> (StatView, Seq<StreamView>) {
    let name_len = d[9] as nat;
    if name_len == 0 {
        (StatView { size, data_runs: st.0.data_runs.push(run), ..st.0 }, st.1)
    } else {
        (st.0, st.1.push((attr_name_spec(d, name_len), size, run)))
    }
}

/// What one attribute adds: the first resident file name; the resident
/// index root, found at its value offset; and each data attribute, resident
/// (skipped when its header or value lies outside it) or as decoded runs.
pub open spec fn stream_step(st: (StatView, Seq<StreamView>), a: (AttributeType, Seq<u8>, bool), bpc: int)
    -> Result<(StatView, Seq<StreamView>), NtfsError> {
    let d = a.1;
    let resident = a.2;
    match a.0 {
        AttributeType::FileName => {
            if resident && st.0.name is None {
                match filename_at(d, 24) {
                    Some((n, _)) => Ok((StatView { name: Some(n), ..st.0 }, st.1)),
                    None => Ok(st),
                }
            } else {
                Ok(st)
            }
        },
        AttributeType::IndexRoot => {
            if resident {
                let val_off = le16(d, 20);
                Ok((StatView {
                    is_directory: true,
                    index_root: if d.len() > val_off { Some(d.subrange(val_off, d.len() as int)) } else { st.0.index_root },
                    ..st.0
                }, st.1))
            } else {
                Ok(st)
            }
        },
        AttributeType::Data => {
            if resident {
                if d.len() < 24 || !resident_value_fits(d) {
                    Ok(st)
                } else {
                    Ok(add_stream(st, d, le32(d, 16) as u64, RunView::Resident(resident_value(d))))
                }
            } else if d.len() < 34 {
                Err(NtfsError::InvalidAttribute)
            } else {
                Ok(add_stream(st, d, runs_bytes(data_runs_spec(d), bpc) as u64, RunView::NonResident(data_runs_spec(d))))
            }
        },
        _ => Ok(st),
    }
}

/// The metadata gathered from the first `n` attributes; the first error
/// ends it.
pub open spec fn stream_fold(attrs: Seq<(AttributeType, Seq<u8>, bool)>, bpc: int, n: nat)
    -> Result<(StatView, Seq<StreamView>), NtfsError>
    decreases n,
{
    if n == 0 {
        Ok((empty_stat(), Seq::empty()))
    } else {
        match stream_fold(attrs, bpc, (n - 1) as nat) {
            Ok(st) => stream_step(st, attrs[n - 1], bpc),
            Err(e) => Err(e),
        }
    }
}

/// The metadata and alternate streams of an MFT record.
pub open spec fn stream_stat_spec(record: Seq<u8>, bpc: int) -> Result<(StatView, Seq<StreamView>), NtfsError> {
    stream_fold(attributes_spec(record), bpc, attributes_spec(record).len())
}

/// An attribute that can be read without running out of bounds or
/// overflowing: a resident index root holds its value offset, a data
/// attribute its name length, and the runs of a non-resident one decode
/// with a byte count that fits in 64 bits.
pub open spec fn stream_step_ok(a: (AttributeType, Seq<u8>, bool), bpc: int) -> bool {
    &&& (a.0 == AttributeType::IndexRoot && a.2) ==> a.1.len() >= 22
    &&& a.0 == AttributeType::Data ==> {
        &&& a.1.len() >= 10
        &&& (!a.2 && a.1.len() >= 34) ==> {
            &&& runs_decode(a.1, le16(a.1, 32), 0)
            &&& runs_bytes(data_runs_spec(a.1), bpc) <= u64::MAX
        }
    }
}

/// The records the stream parser reads: every attribute it reaches is
/// readable.
pub open spec fn stream_stat_ok(record: Seq<u8>, bpc: int) -> bool {
    &&& parse_attributes_ok(record)
    &&& forall|j: int| 0 <= j < attributes_spec(record).len()
            && (#[trigger] stream_fold(attributes_spec(record), bpc, j as nat)) is Ok
            ==> stream_step_ok(attributes_spec(record)[j], bpc)
}

proof fn lemma_stream_err_stays(attrs: Seq<(AttributeType, Seq<u8>, bool)>, bpc: int, i: nat, n: nat)
    requires
        i <= n,
        stream_fold(attrs, bpc, i) is Err,
    ensures
        stream_fold(attrs, bpc, n) == stream_fold(attrs, bpc, i),
    decreases n - i,
{
    if i < n {
        lemma_stream_err_stays(attrs, bpc, i, (n - 1) as nat);
    }
}

/// Record a data stream in `stat`: the unnamed one as the file's content,
/// a named one among the alternate streams.
fn push_stream(stat: &mut StreamStat, attr_data: &[u8], size: u64, run: DataRun)
    requires
        attr_data@.len() >= 10,
    ensures
        final(stat)@ == add_stream(old(stat)@, attr_data@, size, run@),
{
    let name_length = attr_data[9] as usize;
    if name_length == 0 {
        let ghost runs0 = stat.data_runs@;
        stat.size = size;
        stat.data_runs.push(run);
        assert(stat.data_runs@ =~= runs0.push(run));
        assert(stat@.0.data_runs =~= old(stat)@.0.data_runs.push(run@));
    } else {
        let name = parse_attr_name(attr_data, name_length);
        let ghost s0 = stat.alternate_data_streams@;
        let ads = AlternateDataStream { name, size, data: run };
        stat.alternate_data_streams.push(ads);
        assert(stat.alternate_data_streams@ =~= s0.push(ads));
        assert(stat@.1 =~= old(stat)@.1.push(ads@));
    }
}

/// Parse all attributes of an MFT record: name, directory index, the
/// unnamed data stream, and the named (alternate) data streams.
#[verifier::rlimit(40)]
pub fn parse_stat_with_streams(record: &[u8], boot: &BootSector) -> (r: Result<StreamStat, NtfsError>)
    requires
        stream_stat_ok(record@, boot.cluster_bytes()),
    ensures
        match r {
            Ok(st) => stream_stat_spec(record@, boot.cluster_bytes()) == Ok::<(StatView, Seq<StreamView>), NtfsError>(st@),
            Err(e) => stream_stat_spec(record@, boot.cluster_bytes()) == Err::<(StatView, Seq<StreamView>), NtfsError>(e),
        },
{
    let bpc = boot.bytes_per_cluster();
    let ghost attrs = attributes_spec(record@);
    let mut stat = StreamStat {
        is_directory: false,
        size: 0,
        name: None,
        data_runs: Vec::new(),
        index_root: None,
        alternate_data_streams: Vec::new(),
    };
    let list = parse_attributes(record);
    assert(attr_views(list@).len() == list@.len());
    let mut i: usize = 0;
    assert(stat@ =~= (empty_stat(), Seq::<StreamView>::empty()));
    while i < list.len()
        invariant
            i <= list@.len(),
            attr_views(list@) == attrs,
            attrs == attributes_spec(record@),
            bpc == boot.cluster_bytes(),
            stream_stat_ok(record@, bpc as int),
            stream_fold(attrs, bpc as int, i as nat) == Ok::<(StatView, Seq<StreamView>), NtfsError>(stat@),
        decreases list@.len() - i,
    {
        let (attr_type, attr_data, is_resident) = list[i];
        let ghost st0 = stat@;
        let ghost a = attrs[i as int];
        assert(a == (attr_type, attr_data@, is_resident));
        assert(stream_fold(attrs, bpc as int, (i + 1) as nat) == stream_step(st0, a, bpc as int));
        assert(stream_step_ok(a, bpc as int));
        match attr_type {
            AttributeType::FileName => {
                if is_resident && stat.name.is_none() {
                    if let Some((name, _)) = parse_filename(attr_data) {
                        stat.name = Some(name);
                        assert(stat@.0 =~= StatView { name: Some(name@), ..st0.0 });
                    }
                }
            },
            AttributeType::IndexRoot => {
                if is_resident {
                    stat.is_directory = true;
                    let val_off = read_u16_le(attr_data, 20) as usize;
                    if attr_data.len() > val_off {
                        let root = vstd::slice::slice_to_vec(&attr_data[val_off..attr_data.len()]);
                        assert(root@ == attr_data@.subrange(val_off as int, attr_data@.len() as int));
                        stat.index_root = Some(root);
                    }
                }
            },
            AttributeType::Data => {
                if is_resident {
                    if attr_data.len() >= 24 {
                        let value_length = read_u32_le(attr_data, 16) as usize;
                        let value_offset = read_u16_le(attr_data, 20) as usize;
                        if (value_offset as u64) + (value_length as u64) <= attr_data.len() as u64 {
                            let value = vstd::slice::slice_to_vec(&attr_data[value_offset..value_offset + value_length]);
                            let run = DataRun::Resident { data: value };
                            assert(run@ == RunView::Resident(resident_value(attr_data@)));
                            push_stream(&mut stat, attr_data, value_length as u64, run);
                        }
                    }
                } else {
                    let runs = match parse_data_runs(attr_data) {
                        Ok(runs) => runs,
                        Err(e) => {
                            proof { lemma_stream_err_stays(attrs, bpc as int, (i + 1) as nat, attrs.len()); }
                            return Err(e);
                        },
                    };
                    let size = sum_run_bytes(&runs, bpc);
                    push_stream(&mut stat, attr_data, size, DataRun::NonResident(runs));
                }
            },
            _ => {},
        }
        assert(stream_step(st0, a, bpc as int) == Ok::<(StatView, Seq<StreamView>), NtfsError>(stat@));
        i = i + 1;
    }
    Ok(stat)
}

} // verus!
