//! Vendor-specific command entries added to the standard command catalog.
use vstd::prelude::*;

verus! {

broadcast use vstd::string::group_string_axioms;

/// One entry of an enumeration of the message catalog.
#[derive(Clone, Debug, PartialEq, Eq)]
pub struct MavEnumEntry {
    pub value: Option<u32>,
    pub name: String,
    pub description: Option<String>,
    pub params: Option<Vec<String>>,
}

/// Whether `e` has exactly the value, name and description given.
pub open spec fn entry_is(e: MavEnumEntry, value: u32, name: Seq<char>, description: Seq<char>) -> bool {
    &&& e.value == Some(value)
    &&& e.name@ == name
    &&& e.description matches Some(d) && d@ == description
}

/// Whether `p` holds exactly the parameter names `names`.
pub open spec fn params_are(p: Option<Vec<String>>, names: Seq<Seq<char>>) -> bool {
    p matches Some(v) && v@.len() == names.len() && forall|i: int| 0 <= i < names.len() ==> #[trigger] v@[i]@ == names[i]
}

/// The vendor command entries, in catalog order.
pub fn get_custom_entries() -> (r: Vec<MavEnumEntry>)
    ensures
        r@.len() == 4,
        entry_is(r@[0], 218, "GURZUF_ARM_DISARM"@, "Gurzuf arm/disarm command"@),
        params_are(r@[0].params, seq!["action_type"@, "enable/disable"@]),
        entry_is(r@[1], 31100, "GURZUF_STARLINK"@, "Send posistoin to starlink"@),
        params_are(r@[1].params, seq!["lat"@, "long"@]),
        entry_is(r@[2], 247, "CUSTOM_AUTERION_FLAP_CHECK"@, "Custom message for flap checks on auterion devices"@),
        r@[2].params is None,
        entry_is(
            r@[3],
            43003,
            "MAV_CMD_EXTERNAL_POSITION_ESTIMATE"@,
            "Provide an external position estimate for use when dead-reckoning. This is meant \
             to be used for occasional position resets that may be provided by an external \
             system such as a remote pilot using landmarks over a video link."@,
        ),
        params_are(
            r@[3].params,
            seq![
                "transmission_time"@,
                "processing_time"@,
                "accuracy"@,
                "param4"@,
                "latitude"@,
                "longitude"@,
                "altitude"@,
            ],
        ),
{
    let p0 = vec!["action_type".to_string(), "enable/disable".to_string()];
    let p1 = vec!["lat".to_string(), "long".to_string()];
    let p3 = vec![
        "transmission_time".to_string(),
        "processing_time".to_string(),
        "accuracy".to_string(),
        "param4".to_string(),
        "latitude".to_string(),
        "longitude".to_string(),
        "altitude".to_string(),
    ];
    assert(params_are(Some(p0), seq!["action_type"@, "enable/disable"@]));
    assert(params_are(Some(p1), seq!["lat"@, "long"@]));
    assert(params_are(
        Some(p3),
        seq!["transmission_time"@, "processing_time"@, "accuracy"@, "param4"@, "latitude"@, "longitude"@, "altitude"@],
    ));
    vec![
        MavEnumEntry {
            value: Some(218),
            name: "GURZUF_ARM_DISARM".to_string(),
            description: Some("Gurzuf arm/disarm command".to_string()),
            params: Some(p0),
        },
        MavEnumEntry {
            value: Some(31100),
            name: "GURZUF_STARLINK".to_string(),
            description: Some("Send posistoin to starlink".to_string()),
            params: Some(p1),
        },
        MavEnumEntry {
            value: Some(247),
            name: "CUSTOM_AUTERION_FLAP_CHECK".to_string(),
            description: Some("Custom message for flap checks on auterion devices".to_string()),
            params: None,
        },
        MavEnumEntry {
            value: Some(43003),
            name: "MAV_CMD_EXTERNAL_POSITION_ESTIMATE".to_string(),
            description: Some(
                "Provide an external position estimate for use when dead-reckoning. This is meant \
                 to be used for occasional position resets that may be provided by an external \
                 system such as a remote pilot using landmarks over a video link."
                    .to_string(),
            ),
            params: Some(p3),
        },
    ]
}

} // verus!
