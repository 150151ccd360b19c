use shr_daw::final_bus::{BusSource, SOURCE_COUNT};

#[test]
fn bus_sources_have_fixed_slots_and_labels() {
    let all = BusSource::all();
    assert_eq!(all.len(), SOURCE_COUNT);
    for (slot, source) in all.iter().enumerate() {
        assert_eq!(source.index(), slot);
    }
    assert_eq!(all.map(BusSource::label), ["SYNTH", "LOOP", "INPUT"]);
}
