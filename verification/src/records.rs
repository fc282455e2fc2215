//! The pure core of the data-preparation scripts: address records arrive
//! grouped under the address they belong to, and leave as flat rows that each
//! carry that address.

use vstd::prelude::*;

verus! {

/// One record of a group, without its address.
pub struct AddressData {
    pub name: String,
    pub source: String,
}

/// One exported row: the record together with the address it was keyed by.
pub struct OutputAddressData {
    pub eth_address: String,
    pub name: String,
    pub source: String,
}

/// Copies `address` onto every record of its group, keeping order and
/// changing nothing else.
pub fn annotate_addresses(address: &str, records: &Vec<AddressData>) -> (out: Vec<
    OutputAddressData,
>)
    ensures
        out@.len() == records@.len(),
        forall|i: int|
            0 <= i < records@.len() ==> (#[trigger] out@[i]).eth_address@ == address@
                && out@[i].name@ == records@[i].name@ && out@[i].source@ == records@[i].source@,
{
    let mut out: Vec<OutputAddressData> = Vec::new();
    let mut i: usize = 0;
    while i < records.len()
        invariant
            i <= records@.len(),
            out@.len() == i,
            forall|k: int|
                0 <= k < i ==> (#[trigger] out@[k]).eth_address@ == address@ && out@[k].name@
                    == records@[k].name@ && out@[k].source@ == records@[k].source@,
        decreases records@.len() - i,
    {
        let r = &records[i];
        out.push(
            OutputAddressData {
                eth_address: address.to_owned(),
                name: r.name.clone(),
                source: r.source.clone(),
            },
        );
        i = i + 1;
    }
    out
}

} // verus!
