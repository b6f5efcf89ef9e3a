//! Routing of telegrams to registered meter drivers: the first driver, in
//! registration order, that supports the telegram's header processes it.
use vstd::prelude::*;
use crate::drivers::axioma::{AxiomaDriver, axioma_parse, axioma_supports};
use crate::drivers::diehl::{DiehlDriver, diehl_parse, diehl_supports};
use crate::drivers::standard_oms::{StandardOmsDriver, standard_parse};
use crate::drivers::meter_x::{MeterXDriver, meter_x_parse, meter_x_supports};
use crate::traits::{DllHeader, DllHeaderView, MeterDriver, ParseError, ParseErrorView,
    ProcessResult, ProcessResultView, header_of, key_view, manufacturer_code_of, process_view};

verus! {

/// An ordered collection of meter drivers.
pub struct DriverRegistry {
    drivers: Vec<Box<dyn MeterDriver>>,
}

/// Index of the first driver at or after `i` that supports `h`.
pub open spec fn first_supporting(drivers: Seq<Box<dyn MeterDriver>>, h: DllHeaderView, i: int) -> Option<int>
    decreases drivers.len() - i,
{
    if i < 0 || i >= drivers.len() {
        Option::None
    } else if drivers[i].spec_supports(h) {
        Option::Some(i)
    } else {
        first_supporting(drivers, h, i + 1)
    }
}

/// The outcome of routing a telegram through `drivers`: a header error for a
/// telegram shorter than ten bytes, the result of the first supporting
/// driver, or `NoMatchingDriver` naming the header.
pub open spec fn dispatch(drivers: Seq<Box<dyn MeterDriver>>, raw: Seq<u8>, oms_mode: Option<u8>, key: Option<Seq<u8>>) -> Result<ProcessResultView, ParseErrorView> {
    if raw.len() < 10 {
        Err(ParseErrorView::HeaderTooShort)
    } else {
        let h = header_of(raw);
        match first_supporting(drivers, h, 0) {
            Option::Some(i) => drivers[i].spec_parse(raw, oms_mode, key),
            Option::None => Err(ParseErrorView::NoMatchingDriver {
                manufacturer: manufacturer_code_of(h.m_field),
                device_type: h.device_type,
                version: h.version,
            }),
        }
    }
}

impl DriverRegistry {
    /// The drivers, in registration order.
    pub closed spec fn drivers(&self) -> Seq<Box<dyn MeterDriver>> {
        self.drivers@
    }

    /// An empty registry.
    pub fn new() -> (r: Self)
        ensures
            r.drivers() == Seq::<Box<dyn MeterDriver>>::empty(),
    {
        DriverRegistry { drivers: Vec::new() }
    }

    /// Appends a driver; it is consulted after all drivers registered before.
    pub fn register(&mut self, driver: Box<dyn MeterDriver>)
        ensures
            final(self).drivers() == old(self).drivers().push(driver),
    {
        self.drivers.push(driver);
    }

    /// Routes a telegram to the first driver that supports its header.
    pub fn process(&self, raw_payload: &[u8], oms_mode: Option<u8>, key: Option<&[u8]>) -> (r: Result<ProcessResult, ParseError>)
        ensures
            process_view(r) == dispatch(self.drivers(), raw_payload@, oms_mode, key_view(key)),
    {
        let header = match DllHeader::from_bytes(raw_payload) {
            Ok(h) => h,
            Err(e) => {
                return Err(e);
            },
        };
        let mut i: usize = 0;
        while i < self.drivers.len()
            invariant
                i <= self.drivers@.len(),
                raw_payload@.len() >= 10,
                header@ == header_of(raw_payload@),
                first_supporting(self.drivers@, header@, 0) == first_supporting(self.drivers@, header@, i as int),
            decreases self.drivers@.len() - i,
        {
            if self.drivers[i].supports(&header) {
                let r = self.drivers[i].parse(raw_payload, oms_mode, key);
                assert(first_supporting(self.drivers@, header@, i as int) == Option::Some(i as int));
                assert(process_view(r) == self.drivers@[i as int].spec_parse(raw_payload@, oms_mode, key_view(key)));
                assert(raw_payload@.len() >= 10);
                assert(dispatch(self.drivers(), raw_payload@, oms_mode, key_view(key))
                    == self.drivers@[i as int].spec_parse(raw_payload@, oms_mode, key_view(key)));
                return r;
            }
            i = i + 1;
        }
        Err(ParseError::NoMatchingDriver {
            manufacturer: header.manufacturer_code(),
            device_type: header.device_type,
            version: header.version,
        })
    }
}

impl Default for DriverRegistry {
    fn default() -> (r: Self)
        ensures
            r.drivers() == Seq::<Box<dyn MeterDriver>>::empty(),
    {
        Self::new()
    }
}

/// The routing performed by [`build_driver_registry`]: Axioma first, then
/// Diehl, then `MTX`; every other telegram goes to the standard OMS driver,
/// which decrypts in the requested mode and decodes the records.
pub open spec fn builtin_dispatch(raw: Seq<u8>, oms_mode: Option<u8>, key: Option<Seq<u8>>) -> Result<ProcessResultView, ParseErrorView> {
    if raw.len() < 10 {
        Err(ParseErrorView::HeaderTooShort)
    } else {
        let h = header_of(raw);
        if axioma_supports(h) {
            axioma_parse(raw, oms_mode, key)
        } else if diehl_supports(h) {
            diehl_parse(raw, oms_mode, key)
        } else if meter_x_supports(h) {
            meter_x_parse(raw, oms_mode, key)
        } else {
            standard_parse(raw, oms_mode, key)
        }
    }
}

proof fn lemma_builtin_dispatch(ds: Seq<Box<dyn MeterDriver>>)
    requires
        ds.len() == 4,
        forall|h: DllHeaderView| #[trigger] ds[0].spec_supports(h) == axioma_supports(h),
        forall|h: DllHeaderView| #[trigger] ds[1].spec_supports(h) == diehl_supports(h),
        forall|h: DllHeaderView| #[trigger] ds[2].spec_supports(h) == meter_x_supports(h),
        forall|raw: Seq<u8>, m: Option<u8>, k: Option<Seq<u8>>|
            #[trigger] ds[0].spec_parse(raw, m, k) == axioma_parse(raw, m, k),
        forall|raw: Seq<u8>, m: Option<u8>, k: Option<Seq<u8>>|
            #[trigger] ds[1].spec_parse(raw, m, k) == diehl_parse(raw, m, k),
        forall|raw: Seq<u8>, m: Option<u8>, k: Option<Seq<u8>>|
            #[trigger] ds[2].spec_parse(raw, m, k) == meter_x_parse(raw, m, k),
        forall|h: DllHeaderView| #[trigger] ds[3].spec_supports(h),
        forall|raw: Seq<u8>, m: Option<u8>, k: Option<Seq<u8>>|
            #[trigger] ds[3].spec_parse(raw, m, k) == standard_parse(raw, m, k),
    ensures
        forall|raw: Seq<u8>, oms_mode: Option<u8>, key: Option<Seq<u8>>|
            #[trigger] dispatch(ds, raw, oms_mode, key) == builtin_dispatch(raw, oms_mode, key),
{
    assert forall|raw: Seq<u8>, oms_mode: Option<u8>, key: Option<Seq<u8>>|
        #[trigger] dispatch(ds, raw, oms_mode, key) == builtin_dispatch(raw, oms_mode, key) by {
        if raw.len() >= 10 {
            let h = header_of(raw);
            reveal_with_fuel(first_supporting, 5);
            assert(ds[0].spec_supports(h) == axioma_supports(h));
            assert(ds[1].spec_supports(h) == diehl_supports(h));
            assert(ds[2].spec_supports(h) == meter_x_supports(h));
            assert(ds[3].spec_supports(h));
            assert(ds[0].spec_parse(raw, oms_mode, key) == axioma_parse(raw, oms_mode, key));
            assert(ds[1].spec_parse(raw, oms_mode, key) == diehl_parse(raw, oms_mode, key));
            assert(ds[2].spec_parse(raw, oms_mode, key) == meter_x_parse(raw, oms_mode, key));
            assert(ds[3].spec_parse(raw, oms_mode, key) == standard_parse(raw, oms_mode, key));
        }
    }
}

/// The registry with the drivers shipped in this library: Axioma, Diehl and
/// `MTX`, in that order, and the standard OMS driver last as the fallback.
pub fn build_driver_registry() -> (r: DriverRegistry)
    ensures
        r.drivers().len() == 4,
        forall|raw: Seq<u8>, oms_mode: Option<u8>, key: Option<Seq<u8>>|
            #[trigger] dispatch(r.drivers(), raw, oms_mode, key) == builtin_dispatch(raw, oms_mode, key),
{
    let drivers: Vec<Box<dyn MeterDriver>> = vec![
        Box::new(AxiomaDriver::new()),
        Box::new(DiehlDriver::new()),
        Box::new(MeterXDriver::new()),
        Box::new(StandardOmsDriver::new()),
    ];
    proof {
        assert forall|h: DllHeaderView| #[trigger] drivers@[0].spec_supports(h) == axioma_supports(h) by {}
        assert forall|h: DllHeaderView| #[trigger] drivers@[1].spec_supports(h) == diehl_supports(h) by {}
        assert forall|h: DllHeaderView| #[trigger] drivers@[2].spec_supports(h) == meter_x_supports(h) by {}
        assert forall|raw: Seq<u8>, m: Option<u8>, k: Option<Seq<u8>>|
            #[trigger] drivers@[0].spec_parse(raw, m, k) == axioma_parse(raw, m, k) by {}
        assert forall|raw: Seq<u8>, m: Option<u8>, k: Option<Seq<u8>>|
            #[trigger] drivers@[1].spec_parse(raw, m, k) == diehl_parse(raw, m, k) by {}
        assert forall|raw: Seq<u8>, m: Option<u8>, k: Option<Seq<u8>>|
            #[trigger] drivers@[2].spec_parse(raw, m, k) == meter_x_parse(raw, m, k) by {}
        assert forall|h: DllHeaderView| #[trigger] drivers@[3].spec_supports(h) by {}
        assert forall|raw: Seq<u8>, m: Option<u8>, k: Option<Seq<u8>>|
            #[trigger] drivers@[3].spec_parse(raw, m, k) == standard_parse(raw, m, k) by {}
        lemma_builtin_dispatch(drivers@);
    }
    DriverRegistry { drivers }
}

} // verus!
