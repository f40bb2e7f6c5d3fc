//! Gauges of the device memory that renderers hold.
use vstd::prelude::*;

verus! {

/// Device memory that renderers hold, in bytes: the sum over every live
/// [`RenderMemoryLedger`], as of each holder's last report.
#[derive(Clone, Copy, Debug, PartialEq, Eq, Structural)]
pub struct RenderMemoryGauges {
    /// Atlas pages holding glyphs and SVGs, one byte per pixel.
    pub atlas_monochrome_bytes: u64,
    /// Atlas pages holding images and emoji, four bytes per pixel.
    pub atlas_polychrome_bytes: u64,
    /// Instance buffers waiting in the renderers' shared pool. Buffers in
    /// flight for a frame being drawn return to the pool when the frame
    /// completes and are not counted until then.
    pub instance_buffer_bytes: u64,
    /// Drawable-sized depth attachments. One kept in tile memory (memoryless,
    /// on Apple GPUs) has no allocation and reports nothing.
    pub depth_texture_bytes: u64,
}

/// One of the gauges in [`RenderMemoryGauges`].
#[derive(Clone, Copy, Debug, PartialEq, Eq, Structural)]
pub enum RenderMemoryGauge {
    /// [`RenderMemoryGauges::atlas_monochrome_bytes`].
    AtlasMonochrome,
    /// [`RenderMemoryGauges::atlas_polychrome_bytes`].
    AtlasPolychrome,
    /// [`RenderMemoryGauges::instance_buffer_bytes`].
    InstanceBuffers,
    /// [`RenderMemoryGauges::depth_texture_bytes`].
    DepthTextures,
}

/// A number as a 64-bit counter that wraps around shows it.
pub open spec fn wrapped(value: int) -> u64 {
    (value % 0x1_0000_0000_0000_0000) as u64
}

impl RenderMemoryGauges {
    /// All gauges at zero.
    pub open spec fn spec_zero() -> Self {
        RenderMemoryGauges {
            atlas_monochrome_bytes: 0,
            atlas_polychrome_bytes: 0,
            instance_buffer_bytes: 0,
            depth_texture_bytes: 0,
        }
    }

    /// What a gauge shows.
    pub open spec fn reading(self, gauge: RenderMemoryGauge) -> u64 {
        match gauge {
            RenderMemoryGauge::AtlasMonochrome => self.atlas_monochrome_bytes,
            RenderMemoryGauge::AtlasPolychrome => self.atlas_polychrome_bytes,
            RenderMemoryGauge::InstanceBuffers => self.instance_buffer_bytes,
            RenderMemoryGauge::DepthTextures => self.depth_texture_bytes,
        }
    }

    /// With a gauge that shows `bytes`.
    pub open spec fn with_reading(self, gauge: RenderMemoryGauge, bytes: u64) -> Self {
        match gauge {
            RenderMemoryGauge::AtlasMonochrome => RenderMemoryGauges {
                atlas_monochrome_bytes: bytes,
                ..self
            },
            RenderMemoryGauge::AtlasPolychrome => RenderMemoryGauges {
                atlas_polychrome_bytes: bytes,
                ..self
            },
            RenderMemoryGauge::InstanceBuffers => RenderMemoryGauges {
                instance_buffer_bytes: bytes,
                ..self
            },
            RenderMemoryGauge::DepthTextures => RenderMemoryGauges {
                depth_texture_bytes: bytes,
                ..self
            },
        }
    }

    /// All gauges at zero.
    pub fn new() -> (result: Self)
        ensures
            result == Self::spec_zero(),
    {
        RenderMemoryGauges {
            atlas_monochrome_bytes: 0,
            atlas_polychrome_bytes: 0,
            instance_buffer_bytes: 0,
            depth_texture_bytes: 0,
        }
    }

    /// What a gauge shows.
    pub fn read(&self, gauge: RenderMemoryGauge) -> (result: u64)
        ensures
            result == self.reading(gauge),
    {
        match gauge {
            RenderMemoryGauge::AtlasMonochrome => self.atlas_monochrome_bytes,
            RenderMemoryGauge::AtlasPolychrome => self.atlas_polychrome_bytes,
            RenderMemoryGauge::InstanceBuffers => self.instance_buffer_bytes,
            RenderMemoryGauge::DepthTextures => self.depth_texture_bytes,
        }
    }

    /// Has a gauge show `bytes`.
    pub fn set(&mut self, gauge: RenderMemoryGauge, bytes: u64)
        ensures
            *final(self) == old(self).with_reading(gauge, bytes),
    {
        match gauge {
            RenderMemoryGauge::AtlasMonochrome => {
                self.atlas_monochrome_bytes = bytes;
            },
            RenderMemoryGauge::AtlasPolychrome => {
                self.atlas_polychrome_bytes = bytes;
            },
            RenderMemoryGauge::InstanceBuffers => {
                self.instance_buffer_bytes = bytes;
            },
            RenderMemoryGauge::DepthTextures => {
                self.depth_texture_bytes = bytes;
            },
        }
    }
}

impl Default for RenderMemoryGauges {
    fn default() -> (result: Self)
        ensures
            result == Self::spec_zero(),
    {
        RenderMemoryGauges::new()
    }
}

/// By how much a report changes a gauge.
#[derive(Clone, Copy, Debug, PartialEq, Eq, Structural)]
pub enum GaugeChange {
    /// It rises.
    Rise(u64),
    /// It falls.
    Fall(u64),
}

impl GaugeChange {
    /// The change as a number.
    pub open spec fn amount(self) -> int {
        match self {
            GaugeChange::Rise(bytes) => bytes as int,
            GaugeChange::Fall(bytes) => -(bytes as int),
        }
    }
}

/// The bytes one holder of device memory (a renderer, an atlas, a buffer pool) has
/// reported into the gauges. A report replaces the holder's previous one, so the
/// gauges stay the sum over live holders however often each reports, and retiring
/// the ledger takes the holder's bytes back out, so a closed window stops counting.
#[derive(Debug)]
pub struct RenderMemoryLedger {
    /// What was reported last.
    pub published: RenderMemoryGauges,
}

impl RenderMemoryLedger {
    /// A holder that has reported nothing.
    pub fn new() -> (result: Self)
        ensures
            result.published == RenderMemoryGauges::spec_zero(),
    {
        RenderMemoryLedger { published: RenderMemoryGauges::new() }
    }

    /// Notes this holder's current `bytes` for `gauge`, and returns by how much the
    /// gauge changes.
    pub fn note(&mut self, gauge: RenderMemoryGauge, bytes: u64) -> (change: GaugeChange)
        ensures
            final(self).published == old(self).published.with_reading(gauge, bytes),
            change.amount() == bytes - old(self).published.reading(gauge),
    {
        let last: u64 = self.published.read(gauge);
        self.published.set(gauge, bytes);
        if bytes >= last {
            GaugeChange::Rise(bytes - last)
        } else {
            GaugeChange::Fall(last - bytes)
        }
    }

    /// Reports this holder's current `bytes` for `gauge`.
    pub fn publish(
        &mut self,
        gauges: &mut RenderMemoryGauges,
        gauge: RenderMemoryGauge,
        bytes: u64,
    )
        ensures
            final(self).published == old(self).published.with_reading(gauge, bytes),
            *final(gauges) == old(gauges).with_reading(
                gauge,
                wrapped(
                    old(gauges).reading(gauge) + bytes - old(self).published.reading(gauge),
                ),
            ),
    {
        let total: u64 = gauges.read(gauge);
        let changed: u64 = match self.note(gauge, bytes) {
            GaugeChange::Rise(rise) => total.wrapping_add(rise),
            GaugeChange::Fall(fall) => total.wrapping_sub(fall),
        };
        gauges.set(gauge, changed);
    }

    /// What this holder last reported for `gauge`.
    pub fn published(&self, gauge: RenderMemoryGauge) -> (result: u64)
        ensures
            result == self.published.reading(gauge),
    {
        self.published.read(gauge)
    }

    /// Takes everything that this holder has reported back out.
    pub fn retire(&mut self, gauges: &mut RenderMemoryGauges)
        ensures
            final(self).published == RenderMemoryGauges::spec_zero(),
            forall|gauge: RenderMemoryGauge|
                (#[trigger] final(gauges).reading(gauge)) == wrapped(
                    old(gauges).reading(gauge) - old(self).published.reading(gauge),
                ),
    {
        self.publish(gauges, RenderMemoryGauge::AtlasMonochrome, 0);
        self.publish(gauges, RenderMemoryGauge::AtlasPolychrome, 0);
        self.publish(gauges, RenderMemoryGauge::InstanceBuffers, 0);
        self.publish(gauges, RenderMemoryGauge::DepthTextures, 0);
    }
}

impl Default for RenderMemoryLedger {
    fn default() -> (result: Self)
        ensures
            result.published == RenderMemoryGauges::spec_zero(),
    {
        RenderMemoryLedger::new()
    }
}

/// What some holders have reported for a gauge, taken together.
pub open spec fn total(ledgers: Seq<RenderMemoryGauges>, gauge: RenderMemoryGauge) -> int
    decreases ledgers.len(),
{
    if ledgers.len() == 0 {
        0
    } else {
        total(ledgers.drop_last(), gauge) + ledgers.last().reading(gauge)
    }
}

/// Whether every gauge shows the sum over the live holders.
pub open spec fn gauges_show_sums(
    gauges: RenderMemoryGauges,
    ledgers: Seq<RenderMemoryGauges>,
) -> bool {
    forall|gauge: RenderMemoryGauge| #[trigger]
        gauges.reading(gauge) == wrapped(total(ledgers, gauge))
}

proof fn lemma_total_update(
    ledgers: Seq<RenderMemoryGauges>,
    i: int,
    ledger: RenderMemoryGauges,
    gauge: RenderMemoryGauge,
)
    requires
        0 <= i < ledgers.len(),
    ensures
        total(ledgers.update(i, ledger), gauge) == total(ledgers, gauge) + ledger.reading(gauge)
            - ledgers[i].reading(gauge),
    decreases ledgers.len(),
{
    let updated = ledgers.update(i, ledger);
    if i < ledgers.len() - 1 {
        lemma_total_update(ledgers.drop_last(), i, ledger, gauge);
        assert(updated.drop_last() =~= ledgers.drop_last().update(i, ledger));
    } else {
        assert(updated.drop_last() =~= ledgers.drop_last());
    }
}

proof fn lemma_wrapped_sum(a: int, b: int)
    ensures
        wrapped(wrapped(a) + b) == wrapped(a + b),
{
    vstd::arithmetic::div_mod::lemma_add_mod_noop(a, b, 0x1_0000_0000_0000_0000);
    vstd::arithmetic::div_mod::lemma_add_mod_noop(
        a % 0x1_0000_0000_0000_0000,
        b,
        0x1_0000_0000_0000_0000,
    );
    vstd::arithmetic::div_mod::lemma_mod_twice(a, 0x1_0000_0000_0000_0000);
}

/// However often a holder reports, and whatever, the gauges stay the sum over the
/// live holders.
pub proof fn law_reports_keep_the_sums(
    gauges: RenderMemoryGauges,
    ledgers: Seq<RenderMemoryGauges>,
    i: int,
    gauge: RenderMemoryGauge,
    bytes: u64,
)
    requires
        gauges_show_sums(gauges, ledgers),
        0 <= i < ledgers.len(),
    ensures
        gauges_show_sums(
            gauges.with_reading(
                gauge,
                wrapped(gauges.reading(gauge) + bytes - ledgers[i].reading(gauge)),
            ),
            ledgers.update(i, ledgers[i].with_reading(gauge, bytes)),
        ),
{
    let after = gauges.with_reading(
        gauge,
        wrapped(gauges.reading(gauge) + bytes - ledgers[i].reading(gauge)),
    );
    let updated = ledgers.update(i, ledgers[i].with_reading(gauge, bytes));
    assert forall|other: RenderMemoryGauge| #[trigger]
        after.reading(other) == wrapped(total(updated, other)) by {
        lemma_total_update(ledgers, i, ledgers[i].with_reading(gauge, bytes), other);
        assert(gauges.reading(other) == wrapped(total(ledgers, other)));
        lemma_wrapped_sum(total(ledgers, other), bytes - ledgers[i].reading(gauge));
    }
}

/// A holder that has reported nothing, or has been retired, does not count.
pub proof fn law_a_silent_holder_does_not_count(
    ledgers: Seq<RenderMemoryGauges>,
    i: int,
    gauge: RenderMemoryGauge,
)
    requires
        0 <= i < ledgers.len(),
        ledgers[i] == RenderMemoryGauges::spec_zero(),
    ensures
        total(ledgers.remove(i), gauge) == total(ledgers, gauge),
    decreases ledgers.len(),
{
    let removed = ledgers.remove(i);
    if i == ledgers.len() - 1 {
        assert(removed =~= ledgers.drop_last());
    } else {
        law_a_silent_holder_does_not_count(ledgers.drop_last(), i, gauge);
        assert(removed.drop_last() =~= ledgers.drop_last().remove(i));
    }
}

} // verus!
