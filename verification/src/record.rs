use vstd::prelude::*;

verus! {

/// One wireless network as reported by a platform scan: a display name,
/// the access point's hardware address, and a signal strength percentage.
///
/// Names are not unique: every access point yields its own record, so two
/// records may share a name. A full list of records is produced fresh on
/// every scan and replaces the previous list in its entirety.
#[derive(Clone, Debug, PartialEq)]
pub struct NetworkRecord {
    pub name: String,
    pub hardware_address: String,
    pub signal_percent: i32,
}

/// The mathematical image of a record: character sequences and an
/// unbounded integer. Contracts throughout the crate speak of this model.
pub struct RecordModel {
    pub name: Seq<char>,
    pub hardware_address: Seq<char>,
    pub signal_percent: int,
}

impl View for NetworkRecord {
    type V = RecordModel;

    open spec fn view(&self) -> RecordModel {
        RecordModel {
            name: self.name@,
            hardware_address: self.hardware_address@,
            signal_percent: self.signal_percent as int,
        }
    }
}

/// The model of a whole record list, element by element.
pub open spec fn records_model(v: Seq<NetworkRecord>) -> Seq<RecordModel> {
    v.map_values(|x: NetworkRecord| x@)
}

pub proof fn lemma_records_model_push(v: Seq<NetworkRecord>, x: NetworkRecord)
    ensures
        records_model(v.push(x)) == records_model(v).push(x@),
{
    assert(records_model(v.push(x)) =~= records_model(v).push(x@));
}

} // verus!
