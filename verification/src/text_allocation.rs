//! Text whose memory is admitted before it is allocated.
use std::sync::Arc;

use vstd::layout::size_of;
use vstd::prelude::*;
use vstd::string::*;
use vstd::utf8::{encode_utf8, is_char_boundary};

use crate::capacity::{has_capacity, has_room_for, read_capacity};
use crate::color::Hsla;
use crate::geometry::{Bounds, Point, Size};
use crate::line::{offset_of, DecorationRun, StrikethroughStyle, UnderlineStyle};
use crate::line_layout::{FontId, LineLayout, ShapedGlyph, ShapedRun};
use crate::line_paint::{LinePlan, TextAlign, TextLineModel};
use crate::scalar::{spec_two, spec_zero, two, zero, Scalar};
use crate::shared::{compare_handles, makes_room, one_allocation, reserve_room, share};
use crate::text_paint::{text_line, TextSurroundings};

verus! {

/// The allocation family charged by an opted-in text renderer.
#[derive(Clone, Copy, Debug, PartialEq, Eq, Structural)]
pub enum TextAllocationClass {
    /// Immutable source backing shared by the element and cache.
    Source,
    /// Rust glyph and font-run buffers retained by a line layout.
    Glyphs,
    /// Wrapped-layout and cache-key storage.
    Layout,
    /// Element-owned decoration and text-run buffers.
    Element,
    /// Platform shaper workspace, including opaque native allocations.
    NativeScratch,
}

/// A run of text in one font.
#[derive(Clone, Copy, Debug, PartialEq, Eq, Structural)]
pub struct FontRun {
    /// The length of the run in UTF-8 bytes.
    pub len: usize,
    /// The font.
    pub font_id: FontId,
}

/// The exact input covered by a platform scratch measurement.
#[derive(Clone, Copy, Debug)]
pub struct TextShapingInput<'a, F> {
    /// Exact borrowed input; length alone cannot identify a native measurement.
    pub text: &'a str,
    /// Backend identifier; measurements are not portable across backends.
    pub backend: &'static str,
    /// Length of the immutable physical line in UTF-8 bytes.
    pub utf8_bytes: usize,
    /// Length of the immutable physical line in UTF-16 code units.
    pub utf16_units: usize,
    /// Exact input font identities and run lengths used for the measurement.
    pub font_runs: &'a [FontRun],
    /// Exact point size used for shaping.
    pub font_size: F,
}

/// A failed admission never permits the opted-in path to shape unaccounted text.
#[derive(Clone, Copy, Debug, PartialEq, Eq, Structural)]
pub enum TextAllocationError {
    /// The caller could not reserve the requested allocation.
    Denied,
    /// An allocation size could not be represented.
    Overflow,
    /// This backend has no admitted shaping implementation.
    UnsupportedBackend,
    /// The opted-in route does not implement the requested transform.
    UnsupportedTransform,
    /// No measured scratch allowance covers this platform and input.
    MissingNativeMeasurement,
    /// A backend tried to publish a reservation for a different source.
    MismatchedSource,
}

impl TextAllocationError {
    /// What went wrong, in words.
    pub open spec fn spec_message(self) -> Seq<char> {
        match self {
            TextAllocationError::Denied => "Text allocation admission was denied"@,
            TextAllocationError::Overflow => "Text allocation size overflowed"@,
            TextAllocationError::UnsupportedBackend =>
                "The text backend does not support admitted shaping"@,
            TextAllocationError::UnsupportedTransform =>
                "This text transform does not support admitted shaping"@,
            TextAllocationError::MissingNativeMeasurement =>
                "No native shaping measurement covers this input"@,
            TextAllocationError::MismatchedSource =>
                "Text allocation reservation belongs to another source"@,
        }
    }

    /// What went wrong, in words.
    pub fn message(&self) -> (result: String)
        ensures
            result@ == self.spec_message(),
    {
        let message = match self {
            TextAllocationError::Denied => "Text allocation admission was denied",
            TextAllocationError::Overflow => "Text allocation size overflowed",
            TextAllocationError::UnsupportedBackend =>
                "The text backend does not support admitted shaping",
            TextAllocationError::UnsupportedTransform =>
                "This text transform does not support admitted shaping",
            TextAllocationError::MissingNativeMeasurement =>
                "No native shaping measurement covers this input",
            TextAllocationError::MismatchedSource =>
                "Text allocation reservation belongs to another source",
        };
        message.to_owned()
    }
}

/// A uniquely owned reservation token transferred into a published owner.
///
/// Resizing must reserve growth before releasing any existing charge. A failed
/// resize leaves the original reservation intact. Shrinking occurs only after
/// the corresponding temporary buffers have been destroyed.
pub trait TextAllocationToken: Sized {
    /// Reconcile the reservation with the live allocation's measured capacity.
    fn resize(&mut self, bytes: usize) -> (result: Result<(), TextAllocationError>);
}

/// A real construction boundary that a policy can observe.
#[derive(Clone, Copy, Debug, PartialEq, Eq, Structural)]
pub enum TextConstructionEvent {
    /// About to allocate the immutable source backing.
    Source,
    /// About to enter the native shaper after scratch admission.
    NativeEntry,
    /// About to allocate the output run vector.
    RunBuffer,
    /// About to grow the current output glyph vector.
    GlyphBuffer,
}

/// Whether resizing a charge to `bytes` gives `answer`, and leaves the charge `after`.
pub open spec fn resized<T: TextAllocationToken>(
    before: T,
    bytes: usize,
    answer: Result<(), TextAllocationError>,
    after: T,
) -> bool {
    call_ensures(resize_charge::<T>, (before, bytes), (after, answer))
}

/// Resizes a charge to `bytes`, and returns it with what came of that.
pub fn resize_charge<T: TextAllocationToken>(token: T, bytes: usize) -> (result: (
    T,
    Result<(), TextAllocationError>,
))
    ensures
        exists|charge: &mut T| #[trigger]
            call_ensures(T::resize, (charge, bytes), result.1) && *charge == token && *final(charge)
                == result.0,
{
    let mut resized = token;
    let answer = resized.resize(bytes);
    let result = (resized, answer);
    proof {
        assert(result.0 == resized && result.1 == answer);
        assert(exists|charge: &mut T| #[trigger]
            call_ensures(T::resize, (charge, bytes), result.1) && *charge == token && *final(charge)
                == result.0);
    }
    result
}

/// Application policy for the optional, fallible text-rendering path.
pub trait TextAllocationAdmission: Sized {
    /// What owns a charge.
    type Token: TextAllocationToken;

    /// Observe the actual construction site. Does nothing unless a policy asks for it.
    fn construction(&self, _event: TextConstructionEvent) {
    }

    /// Observe actual native output without retaining source or glyph buffers.
    fn native_output(
        &self,
        _postscript_name: &str,
        _glyph_count: usize,
        _glyph_capacity: usize,
        _run_capacity: usize,
    ) {
    }

    /// Record an unsupported native fallback without registering or retaining it.
    fn native_unavailable_font(&self, _postscript_name: &str) {
    }

    /// Reserve before allocating. The returned token owns the charge.
    fn reserve(&self, class: TextAllocationClass, bytes: usize) -> (result: Result<
        Self::Token,
        TextAllocationError,
    >);

    /// Reserve a measured native workspace floor before entering the shaper.
    ///
    /// Production callers must reject inputs outside their measured
    /// backend/font/input envelope.
    fn native_scratch<F: Scalar>(&self, input: TextShapingInput<F>) -> (result: Result<
        Self::Token,
        TextAllocationError,
    >);
}

/// A unique construction reservation. Publishing consumes it; published
/// allocations never expose this mutable admission capability.
pub struct TextAllocationReservation<A: TextAllocationAdmission> {
    /// The charge.
    pub token: A::Token,
    /// The policy that admitted it.
    pub admission: Arc<A>,
    /// The source that it is for.
    pub source: Option<AdmittedTextSource<A>>,
    /// How much is reserved.
    pub bytes: usize,
}

/// A charge that stays for as long as what it was made for.
pub struct TextAllocationLease<A: TextAllocationAdmission> {
    /// The charge.
    pub token: A::Token,
    /// The policy that admitted it.
    pub admission: Arc<A>,
}

/// Whether platform allocations require admission or remain separately observed.
#[derive(Clone, Copy, Debug, PartialEq, Eq, Structural)]
pub enum TextPlatformCoverage {
    /// The backend must obtain a real native scratch reservation before entry.
    StrictAdmission,
    /// Rust allocations are admitted; platform/font allocations have no claimed bound.
    ObservedUnbounded,
}

/// A physical line whose immutable backing was reserved before allocation.
pub struct AdmittedTextSource<A: TextAllocationAdmission> {
    /// What all handles share.
    pub inner: Arc<AdmittedTextSourceInner<A>>,
}

/// What all handles to a source share.
pub struct AdmittedTextSourceInner<A: TextAllocationAdmission> {
    /// Whether platform allocations require admission.
    pub platform_coverage: TextPlatformCoverage,
    /// The line.
    pub text: String,
    /// Its charge.
    pub allocation: TextAllocationLease<A>,
}

/// What is decided about growing a buffer of glyphs.
#[derive(Clone, Copy, Debug, PartialEq, Eq, Structural)]
pub enum Growth {
    /// It has room already.
    Fits,
    /// It grows.
    Grows,
    /// It does not grow.
    Fails(TextAllocationError),
}

/// What is decided about growing a buffer of `len` elements of `size` bytes, with
/// room for `capacity`, by `additional` elements: the old and the new buffer and
/// `other_live_bytes` more must be covered by the `reserved` bytes of a reservation
/// that is `bound` to a source.
pub open spec fn spec_growth(
    len: usize,
    capacity: usize,
    additional: usize,
    size: usize,
    other_live_bytes: usize,
    reserved: usize,
    bound: bool,
) -> Growth {
    let required = len + additional;
    let peak = (capacity + required) * size + other_live_bytes;
    if required > usize::MAX {
        Growth::Fails(TextAllocationError::Overflow)
    } else if required <= capacity {
        Growth::Fits
    } else if capacity + required > usize::MAX || (capacity + required) * size > usize::MAX || peak
        > usize::MAX {
        Growth::Fails(TextAllocationError::Overflow)
    } else if !bound || peak > reserved {
        Growth::Fails(TextAllocationError::Denied)
    } else {
        Growth::Grows
    }
}

/// What is decided about growing a buffer; see [`spec_growth`].
pub fn growth(
    len: usize,
    capacity: usize,
    additional: usize,
    size: usize,
    other_live_bytes: usize,
    reserved: usize,
    bound: bool,
) -> (result: Growth)
    ensures
        result == spec_growth(
            len,
            capacity,
            additional,
            size,
            other_live_bytes,
            reserved,
            bound,
        ),
{
    let overflow = Growth::Fails(TextAllocationError::Overflow);
    let required: usize = match len.checked_add(additional) {
        Some(required) => required,
        None => {
            return overflow;
        },
    };
    if required <= capacity {
        return Growth::Fits;
    }
    let count: usize = match capacity.checked_add(required) {
        Some(count) => count,
        None => {
            return overflow;
        },
    };
    let buffers: usize = match count.checked_mul(size) {
        Some(buffers) => buffers,
        None => {
            return overflow;
        },
    };
    let peak: usize = match buffers.checked_add(other_live_bytes) {
        Some(peak) => peak,
        None => {
            return overflow;
        },
    };
    if !bound || peak > reserved {
        Growth::Fails(TextAllocationError::Denied)
    } else {
        Growth::Grows
    }
}

impl<A: TextAllocationAdmission> TextAllocationReservation<A> {
    /// The reservation that a policy's answer makes.
    pub fn from_answer(
        admission: &Arc<A>,
        bytes: usize,
        answer: Result<A::Token, TextAllocationError>,
    ) -> (result: Result<Self, TextAllocationError>)
        ensures
            result == (match answer {
                Ok(token) => Ok::<Self, TextAllocationError>(
                    TextAllocationReservation { token, admission: *admission, source: None, bytes },
                ),
                Err(error) => Err::<Self, TextAllocationError>(error),
            }),
    {
        match answer {
            Ok(token) => Ok(
                TextAllocationReservation {
                    token,
                    admission: share(admission),
                    source: None,
                    bytes,
                },
            ),
            Err(error) => Err(error),
        }
    }

    /// Asks a policy for a charge of this class and size.
    pub fn reserve(admission: &Arc<A>, class: TextAllocationClass, bytes: usize) -> (result: Result<
        Self,
        TextAllocationError,
    >)
        ensures
            exists|answer: Result<A::Token, TextAllocationError>| #[trigger]
                call_ensures(A::reserve, (&**admission, class, bytes), answer) && result == (
                match answer {
                    Ok(token) => Ok::<Self, TextAllocationError>(
                        TextAllocationReservation {
                            token,
                            admission: *admission,
                            source: None,
                            bytes,
                        },
                    ),
                    Err(error) => Err::<Self, TextAllocationError>(error),
                }),
    {
        let answer = admission.reserve(class, bytes);
        Self::from_answer(admission, bytes, answer)
    }

    /// Reserve a backend's glyph buffers for this exact immutable source.
    pub fn for_line(source: &AdmittedTextSource<A>, bytes: usize) -> (result: Result<
        Self,
        TextAllocationError,
    >)
        ensures
            exists|answer: Result<A::Token, TextAllocationError>| #[trigger]
                call_ensures(
                    A::reserve,
                    (&*source.policy(), TextAllocationClass::Glyphs, bytes),
                    answer,
                ) && result == (match answer {
                    Ok(token) => Ok::<Self, TextAllocationError>(
                        TextAllocationReservation {
                            token,
                            admission: source.policy(),
                            source: Some(*source),
                            bytes,
                        },
                    ),
                    Err(error) => Err::<Self, TextAllocationError>(error),
                }),
    {
        match Self::reserve(source.admission(), TextAllocationClass::Glyphs, bytes) {
            Ok(reservation) => {
                let mut reservation = reservation;
                reservation.source = Some(source.share());
                Ok(reservation)
            },
            Err(error) => Err(error),
        }
    }

    /// Takes note of what came of resizing the charge to `bytes`.
    pub fn settle(&mut self, bytes: usize, answer: Result<(), TextAllocationError>) -> (result:
        Result<(), TextAllocationError>)
        ensures
            result == answer,
            *final(self) == (TextAllocationReservation {
                bytes: if answer is Ok {
                    bytes
                } else {
                    old(self).bytes
                },
                ..*old(self)
            }),
    {
        if answer.is_ok() {
            self.bytes = bytes;
        }
        answer
    }

    /// Reconcile capacity while the unique builder still owns the allocation. Where
    /// the charge cannot be resized, the reservation stays as it was.
    pub fn reconcile(&mut self, bytes: usize) -> (result: Result<(), TextAllocationError>)
        ensures
            final(self).admission == old(self).admission,
            final(self).source == old(self).source,
            final(self).bytes == (if result is Ok {
                bytes
            } else {
                old(self).bytes
            }),
            exists|charge: &mut A::Token| #[trigger]
                call_ensures(A::Token::resize, (charge, bytes), result) && *charge == old(
                    self,
                ).token && *final(charge) == final(self).token,
    {
        let answer = self.token.resize(bytes);
        self.settle(bytes, answer)
    }

    /// Reconciles a reservation that is handed over, as [`Self::reconcile`] does.
    fn reconciled(self, bytes: usize) -> (result: (Self, Result<(), TextAllocationError>))
        ensures
            resized(self.token, bytes, result.1, result.0.token),
            result.0.admission == self.admission,
            result.0.source == self.source,
            result.0.bytes == (if result.1 is Ok {
                bytes
            } else {
                self.bytes
            }),
    {
        let (token, answer) = resize_charge(self.token, bytes);
        let mut reservation = TextAllocationReservation {
            token,
            admission: self.admission,
            source: self.source,
            bytes: self.bytes,
        };
        let answer = reservation.settle(bytes, answer);
        (reservation, answer)
    }

    /// Grow a backend buffer only when the reservation covers the other live
    /// output buffers and both old/new allocations during reallocation.
    /// The backend supplies the exact capacity bytes of its other live buffers.
    pub fn grow_glyph_buffer<F: Scalar>(
        &self,
        glyphs: &mut Vec<ShapedGlyph<F>>,
        additional: usize,
        other_live_bytes: usize,
    ) -> (result: Result<(), TextAllocationError>)
        ensures
            final(glyphs)@ == old(glyphs)@,
            exists|capacity: usize| #[trigger]
                has_capacity(*old(glyphs), capacity) && match spec_growth(
                    old(glyphs)@.len() as usize,
                    capacity,
                    additional,
                    size_of::<ShapedGlyph<F>>() as usize,
                    other_live_bytes,
                    self.bytes,
                    self.source is Some,
                ) {
                    Growth::Fits => {
                        &&& result == Ok::<(), TextAllocationError>(())
                        &&& *final(glyphs) == *old(glyphs)
                    },
                    Growth::Grows => exists|reserved: bool| #[trigger]
                        makes_room(*old(glyphs), additional, reserved) && if reserved {
                            &&& result == Ok::<(), TextAllocationError>(())
                            &&& has_room_for(*final(glyphs), old(glyphs)@.len() + additional)
                        } else {
                            result == Err::<(), TextAllocationError>(TextAllocationError::Denied)
                        },
                    Growth::Fails(error) => {
                        &&& result == Err::<(), TextAllocationError>(error)
                        &&& *final(glyphs) == *old(glyphs)
                    },
                },
    {
        let capacity: usize = read_capacity(glyphs);
        let len: usize = glyphs.len();
        let size: usize = core::mem::size_of::<ShapedGlyph<F>>();
        let decision = growth(
            len,
            capacity,
            additional,
            size,
            other_live_bytes,
            self.bytes,
            self.source.is_some(),
        );
        proof {
            assert(decision == spec_growth(
                old(glyphs)@.len() as usize,
                capacity,
                additional,
                size_of::<ShapedGlyph<F>>() as usize,
                other_live_bytes,
                self.bytes,
                self.source is Some,
            ));
        }
        match decision {
            Growth::Fits => Ok(()),
            Growth::Grows => {
                self.admission.construction(TextConstructionEvent::GlyphBuffer);
                if reserve_room(glyphs, additional) {
                    Ok(())
                } else {
                    Err(TextAllocationError::Denied)
                }
            },
            Growth::Fails(error) => Err(error),
        }
    }

    /// Turns the reservation into a charge that stays.
    pub fn publish(self) -> (result: TextAllocationLease<A>)
        ensures
            result == (TextAllocationLease { token: self.token, admission: self.admission }),
    {
        TextAllocationLease { token: self.token, admission: self.admission }
    }

    /// Whether a reservation is certified for a source, given whether it is under the
    /// source's policy and, where it is bound to a source, whether to that one.
    pub fn certified(same_policy: bool, same_source: Option<bool>) -> (result: bool)
        ensures
            result == (same_policy && same_source == Some(true)),
    {
        match same_source {
            Some(same_source) => same_policy && same_source,
            None => false,
        }
    }

    /// Whether `answer` is whether the reservation was made for this very source,
    /// under its policy, as comparing the handles tells.
    pub open spec fn certified_as(self, source: AdmittedTextSource<A>, answer: bool) -> bool {
        exists|same_policy: bool| #[trigger]
            one_allocation(self.admission, source.policy(), same_policy) && match self.source {
                Some(bound) => exists|same_source: bool| #[trigger]
                    one_allocation(bound.inner, source.inner, same_source) && answer == (
                    same_policy && same_source),
                None => !answer,
            }
    }

    /// Whether the reservation was made for this very source, under its policy. One
    /// that is bound to no source was not. Which handles are to one allocation is up to
    /// the allocator.
    pub fn certifies(&self, source: &AdmittedTextSource<A>) -> (result: bool)
        ensures
            self.certified_as(*source, result),
            result ==> self.admission == source.policy() && self.source == Some(*source),
    {
        let same_policy: bool = compare_handles(&self.admission, source.admission());
        let same_source: Option<bool> = match &self.source {
            Some(bound) => Some(bound.same_allocation(source)),
            None => None,
        };
        Self::certified(same_policy, same_source)
    }
}

/// Whether a text holds a line feed.
pub open spec fn has_line_feed(text: Seq<u8>) -> bool {
    exists|i: int| 0 <= i < text.len() && #[trigger] text[i] == 10
}

fn holds_line_feed(text: &str) -> (result: bool)
    ensures
        result == has_line_feed(text.spec_bytes()),
{
    let bytes = text.as_bytes();
    let mut i: usize = 0;
    while i < bytes.len()
        invariant
            bytes@ == text.spec_bytes(),
            i <= bytes@.len(),
            forall|k: int| 0 <= k < i ==> #[trigger] bytes@[k] != 10,
        decreases bytes@.len() - i,
    {
        if bytes[i] == 10 {
            return true;
        }
        i = i + 1;
    }
    false
}

/// What a source of `len` bytes of text takes: the text and its header, and what
/// all handles share and its header.
pub open spec fn source_bytes<A: TextAllocationAdmission>(len: int) -> int {
    len + size_of::<AdmittedTextSourceInner<A>>() + 4 * size_of::<usize>()
}

impl<A: TextAllocationAdmission> AdmittedTextSource<A> {
    /// The policy that admitted the source.
    pub open spec fn policy(self) -> Arc<A> {
        self.inner.allocation.admission
    }

    /// The line in utf-8 bytes.
    pub open spec fn bytes(self) -> Seq<u8> {
        encode_utf8(self.inner.text@)
    }

    /// Construct one source allocation. Handles share its receipt and backing.
    pub fn new(text: &str, admission: Arc<A>) -> (result: Result<Self, TextAllocationError>)
        ensures
            admitted(
                text.spec_bytes(),
                admission,
                TextPlatformCoverage::StrictAdmission,
                result,
            ),
    {
        Self::with_platform_coverage(text, admission, TextPlatformCoverage::StrictAdmission)
    }

    /// Admit Rust storage while keeping native and font allocations explicitly unbounded.
    pub fn new_tracked_platform(text: &str, admission: Arc<A>) -> (result: Result<
        Self,
        TextAllocationError,
    >)
        ensures
            admitted(
                text.spec_bytes(),
                admission,
                TextPlatformCoverage::ObservedUnbounded,
                result,
            ),
    {
        Self::with_platform_coverage(text, admission, TextPlatformCoverage::ObservedUnbounded)
    }

    fn with_platform_coverage(
        text: &str,
        admission: Arc<A>,
        platform_coverage: TextPlatformCoverage,
    ) -> (result: Result<Self, TextAllocationError>)
        ensures
            admitted(text.spec_bytes(), admission, platform_coverage, result),
    {
        if holds_line_feed(text) {
            return Err(TextAllocationError::UnsupportedTransform);
        }
        let len: usize = text.as_bytes().len();
        if len > u32::MAX as usize {
            return Err(TextAllocationError::Overflow);
        }
        let word: usize = core::mem::size_of::<usize>();
        let header: usize = match word.checked_mul(2) {
            Some(header) => header,
            None => {
                return Err(TextAllocationError::Overflow);
            },
        };
        let metadata: usize = match core::mem::size_of::<AdmittedTextSourceInner<A>>().checked_add(
            header,
        ) {
            Some(metadata) => metadata,
            None => {
                return Err(TextAllocationError::Overflow);
            },
        };
        let backing: usize = match len.checked_add(header) {
            Some(backing) => backing,
            None => {
                return Err(TextAllocationError::Overflow);
            },
        };
        let reserved: usize = match backing.checked_add(metadata) {
            Some(reserved) => reserved,
            None => {
                return Err(TextAllocationError::Overflow);
            },
        };
        let allocation = match TextAllocationReservation::reserve(
            &admission,
            TextAllocationClass::Source,
            reserved,
        ) {
            Ok(allocation) => allocation,
            Err(error) => {
                return Err(error);
            },
        };
        admission.construction(TextConstructionEvent::Source);
        let text = text.to_owned();
        let (allocation, settled) = allocation.reconciled(reserved);
        match settled {
            Ok(()) => Ok(
                AdmittedTextSource {
                    inner: Arc::new(
                        AdmittedTextSourceInner {
                            platform_coverage,
                            text,
                            allocation: allocation.publish(),
                        },
                    ),
                },
            ),
            Err(error) => Err(error),
        }
    }

    /// Another handle to the source.
    pub fn share(&self) -> (result: Self)
        ensures
            result == *self,
    {
        AdmittedTextSource { inner: share(&self.inner) }
    }

    /// Borrow the exact physical line without exporting an uncharged string alias.
    pub fn as_str(&self) -> (result: &str)
        ensures
            result.spec_bytes() == self.bytes(),
    {
        self.inner.text.as_str()
    }

    /// This classification follows the source through layout and cache ownership.
    pub fn platform_coverage(&self) -> (result: TextPlatformCoverage)
        ensures
            result == self.inner.platform_coverage,
    {
        self.inner.platform_coverage
    }

    /// Whether two handles are to one source.
    pub fn same_allocation(&self, other: &Self) -> (result: bool)
        ensures
            one_allocation(self.inner, other.inner, result),
            result ==> *self == *other,
    {
        compare_handles(&self.inner, &other.inner)
    }

    /// Admission policy retained by this immutable source.
    pub fn admission(&self) -> (result: &Arc<A>)
        ensures
            *result == self.policy(),
    {
        &self.inner.allocation.admission
    }
}

/// What comes of admitting a text: more than one line is refused before anything is
/// allocated or reserved, and so is one whose size cannot be represented; then the
/// policy is asked for exactly what the source takes, and where it agrees, the
/// source holds the text, unless the charge cannot be reconciled.
pub open spec fn admitted<A: TextAllocationAdmission>(
    text: Seq<u8>,
    admission: Arc<A>,
    platform_coverage: TextPlatformCoverage,
    result: Result<AdmittedTextSource<A>, TextAllocationError>,
) -> bool {
    if has_line_feed(text) {
        result == Err::<AdmittedTextSource<A>, TextAllocationError>(
            TextAllocationError::UnsupportedTransform,
        )
    } else if text.len() > u32::MAX || source_bytes::<A>(text.len() as int) > usize::MAX {
        result == Err::<AdmittedTextSource<A>, TextAllocationError>(TextAllocationError::Overflow)
    } else {
        exists|answer: Result<A::Token, TextAllocationError>| #[trigger]
            call_ensures(
                A::reserve,
                (
                    &*admission,
                    TextAllocationClass::Source,
                    source_bytes::<A>(text.len() as int) as usize,
                ),
                answer,
            ) && match answer {
                Err(error) => result == Err::<AdmittedTextSource<A>, TextAllocationError>(error),
                Ok(token) => exists|settled: Result<(), TextAllocationError>, charge: A::Token|
                    #[trigger]
                    resized(
                        token,
                        source_bytes::<A>(text.len() as int) as usize,
                        settled,
                        charge,
                    ) && match settled {
                        Err(error) => result == Err::<AdmittedTextSource<A>, TextAllocationError>(
                            error,
                        ),
                        Ok(_) => {
                            &&& result is Ok
                            &&& result->Ok_0.bytes() == text
                            &&& result->Ok_0.inner.platform_coverage == platform_coverage
                            &&& result->Ok_0.inner.allocation == TextAllocationLease {
                                token: charge,
                                admission,
                            }
                        },
                    },
            }
    }
}

/// Whether two outcomes of admitting a text differ in their coverage at most.
pub open spec fn differ_in_coverage<A: TextAllocationAdmission>(
    a: Result<AdmittedTextSource<A>, TextAllocationError>,
    b: Result<AdmittedTextSource<A>, TextAllocationError>,
) -> bool {
    match (a, b) {
        (Ok(a), Ok(b)) => {
            &&& a.inner.text == b.inner.text
            &&& a.inner.allocation == b.inner.allocation
        },
        (Err(a), Err(b)) => a == b,
        _ => false,
    }
}

/// Whether platform allocations are admitted or observed makes no difference to what a
/// policy is asked and to what comes of its answers: each outcome under one coverage is
/// an outcome under the other, but for the coverage that the source then has.
pub proof fn law_coverage_changes_nothing_else<A: TextAllocationAdmission>(
    text: Seq<u8>,
    admission: Arc<A>,
    a_coverage: TextPlatformCoverage,
    a: Result<AdmittedTextSource<A>, TextAllocationError>,
    b_coverage: TextPlatformCoverage,
    b: Result<AdmittedTextSource<A>, TextAllocationError>,
)
    requires
        admitted(text, admission, a_coverage, a),
        differ_in_coverage(a, b),
        b is Ok ==> b->Ok_0.inner.platform_coverage == b_coverage,
    ensures
        admitted(text, admission, b_coverage, b),
{
}

/// A shaped physical line that cannot expose an unaccounted raw-layout alias.
pub struct AdmittedLineLayout<A: TextAllocationAdmission, F> {
    /// The glyphs.
    pub layout: Arc<LineLayout<F>>,
    /// The text.
    pub source: AdmittedTextSource<A>,
    /// The charge of the glyphs.
    pub allocation: TextAllocationLease<A>,
}

/// What buffers of these capacities take, taken together.
pub open spec fn buffers_bytes(capacities: Seq<usize>, size: int, count: nat) -> int
    decreases count,
{
    if count == 0 {
        0
    } else {
        buffers_bytes(capacities, size, (count - 1) as nat) + capacities[count - 1] * size
    }
}

proof fn lemma_buffers_bytes(capacities: Seq<usize>, size: int, count: nat, more: nat)
    requires
        0 <= size,
        count <= more <= capacities.len(),
    ensures
        0 <= buffers_bytes(capacities, size, count) <= buffers_bytes(capacities, size, more),
    decreases more,
{
    if more > 0 {
        let last = capacities[more - 1] as int;
        assert(0 <= last * size) by (nonlinear_arith)
            requires
                0 <= last,
                0 <= size,
        ;
        if count < more {
            lemma_buffers_bytes(capacities, size, count, (more - 1) as nat);
        } else {
            lemma_buffers_bytes(capacities, size, (count - 1) as nat, (more - 1) as nat);
        }
    }
}

/// What a layout takes: `base` bytes, a vector with room for `run_capacity` runs of
/// `run_size` bytes, and for each run a vector with room for so many glyphs of
/// `glyph_size` bytes.
pub open spec fn spec_layout_bytes(
    base: int,
    run_capacity: usize,
    run_size: int,
    glyph_capacities: Seq<usize>,
    glyph_size: int,
) -> int {
    base + run_capacity * run_size + buffers_bytes(
        glyph_capacities,
        glyph_size,
        glyph_capacities.len(),
    )
}

/// What a layout takes, if it can be represented; see [`spec_layout_bytes`].
pub fn layout_bytes(
    base: usize,
    run_capacity: usize,
    run_size: usize,
    glyph_capacities: &Vec<usize>,
    glyph_size: usize,
) -> (result: Result<usize, TextAllocationError>)
    ensures
        ({
            let bytes = spec_layout_bytes(
                base as int,
                run_capacity,
                run_size as int,
                glyph_capacities@,
                glyph_size as int,
            );
            result == (if bytes <= usize::MAX {
                Ok::<usize, TextAllocationError>(bytes as usize)
            } else {
                Err::<usize, TextAllocationError>(TextAllocationError::Overflow)
            })
        }),
{
    proof {
        lemma_buffers_bytes(
            glyph_capacities@,
            glyph_size as int,
            0,
            glyph_capacities@.len(),
        );
        assert(0 <= run_capacity * run_size) by (nonlinear_arith)
            requires
                0 <= run_capacity,
                0 <= run_size,
        ;
    }
    let runs: usize = match run_capacity.checked_mul(run_size) {
        Some(runs) => runs,
        None => {
            return Err(TextAllocationError::Overflow);
        },
    };
    let mut bytes: usize = match base.checked_add(runs) {
        Some(bytes) => bytes,
        None => {
            return Err(TextAllocationError::Overflow);
        },
    };
    let mut i: usize = 0;
    while i < glyph_capacities.len()
        invariant
            i <= glyph_capacities@.len(),
            bytes == base + run_capacity * run_size + buffers_bytes(
                glyph_capacities@,
                glyph_size as int,
                i as nat,
            ),
        decreases glyph_capacities@.len() - i,
    {
        proof {
            lemma_buffers_bytes(
                glyph_capacities@,
                glyph_size as int,
                (i + 1) as nat,
                glyph_capacities@.len(),
            );
            lemma_buffers_bytes(glyph_capacities@, glyph_size as int, i as nat, (i + 1) as nat);
        }
        let glyphs: usize = match glyph_capacities[i].checked_mul(glyph_size) {
            Some(glyphs) => glyphs,
            None => {
                proof {
                    assert(buffers_bytes(glyph_capacities@, glyph_size as int, (i + 1) as nat)
                        == buffers_bytes(glyph_capacities@, glyph_size as int, i as nat)
                        + glyph_capacities@[i as int] * glyph_size);
                    lemma_buffers_bytes(glyph_capacities@, glyph_size as int, 0, i as nat);
                }
                return Err(TextAllocationError::Overflow);
            },
        };
        bytes =
        match bytes.checked_add(glyphs) {
            Some(bytes) => bytes,
            None => {
                return Err(TextAllocationError::Overflow);
            },
        };
        i = i + 1;
    }
    Ok(bytes)
}

/// Whether `capacities` are those that the glyph vectors of some runs have.
pub open spec fn hold_glyphs<F>(capacities: Seq<usize>, runs: Seq<ShapedRun<F>>) -> bool {
    &&& capacities.len() == runs.len()
    &&& forall|i: int|
        0 <= i < runs.len() ==> has_capacity((#[trigger] runs[i]).glyphs, capacities[i])
}

impl<A: TextAllocationAdmission, F: Scalar> AdmittedLineLayout<A, F> {
    /// What a layout takes besides its vectors: the two shared objects and their
    /// headers.
    pub open spec fn base_bytes() -> int {
        (size_of::<Self>() + size_of::<LineLayout<F>>() + 4 * size_of::<usize>()) as int
    }

    /// Whether `result` is what a layout takes, with the capacities that its vectors
    /// have.
    pub open spec fn takes(
        layout: LineLayout<F>,
        result: Result<usize, TextAllocationError>,
    ) -> bool {
        exists|run_capacity: usize, glyph_capacities: Seq<usize>|
            has_capacity(layout.runs, run_capacity) && hold_glyphs(glyph_capacities, layout.runs@)
                && {
                let bytes = #[trigger] spec_layout_bytes(
                    Self::base_bytes(),
                    run_capacity,
                    size_of::<ShapedRun<F>>() as int,
                    glyph_capacities,
                    size_of::<ShapedGlyph<F>>() as int,
                );
                result == (if bytes <= usize::MAX {
                    Ok::<usize, TextAllocationError>(bytes as usize)
                } else {
                    Err::<usize, TextAllocationError>(TextAllocationError::Overflow)
                })
            }
    }

    /// Bytes retained by the glyph vectors and the two shared layout objects.
    pub fn allocation_bytes(layout: &LineLayout<F>) -> (result: Result<usize, TextAllocationError>)
        ensures
            Self::takes(*layout, result),
    {
        let run_capacity: usize = read_capacity(&layout.runs);
        let mut capacities: Vec<usize> = Vec::with_capacity(layout.runs.len());
        let mut i: usize = 0;
        while i < layout.runs.len()
            invariant
                i <= layout.runs@.len(),
                capacities@.len() == i,
                forall|k: int|
                    0 <= k < i ==> has_capacity(
                        (#[trigger] layout.runs@[k]).glyphs,
                        capacities@[k],
                    ),
            decreases layout.runs@.len() - i,
        {
            let capacity: usize = read_capacity(&layout.runs[i].glyphs);
            capacities.push(capacity);
            i = i + 1;
        }
        proof {
            assert(hold_glyphs(capacities@, layout.runs@));
            let (run_size, glyph_size) = (
                size_of::<ShapedRun<F>>() as int,
                size_of::<ShapedGlyph<F>>() as int,
            );
            lemma_buffers_bytes(capacities@, glyph_size, 0, capacities@.len());
            assert(0 <= run_capacity * run_size) by (nonlinear_arith)
                requires
                    0 <= run_capacity,
                    0 <= run_size,
            ;
            assert(Self::base_bytes() <= spec_layout_bytes(
                Self::base_bytes(),
                run_capacity,
                run_size,
                capacities@,
                glyph_size,
            ));
        }
        let objects: usize = match core::mem::size_of::<Self>().checked_add(
            core::mem::size_of::<LineLayout<F>>(),
        ) {
            Some(objects) => objects,
            None => {
                return Err(TextAllocationError::Overflow);
            },
        };
        let headers: usize = match core::mem::size_of::<usize>().checked_mul(4) {
            Some(headers) => headers,
            None => {
                return Err(TextAllocationError::Overflow);
            },
        };
        let base: usize = match objects.checked_add(headers) {
            Some(base) => base,
            None => {
                return Err(TextAllocationError::Overflow);
            },
        };
        let run_size: usize = core::mem::size_of::<ShapedRun<F>>();
        let glyph_size: usize = core::mem::size_of::<ShapedGlyph<F>>();
        layout_bytes(base, run_capacity, run_size, &capacities, glyph_size)
    }

    /// What comes of completing a glyph allocation: one that was not certified for
    /// its source, or whose layout is not as long as the source, is refused; else the
    /// charge is resized to exactly what the layout takes, and where that succeeds,
    /// the line holds the layout.
    pub open spec fn completes(
        certified: bool,
        source: AdmittedTextSource<A>,
        layout: LineLayout<F>,
        allocation: TextAllocationReservation<A>,
        result: Result<Self, TextAllocationError>,
    ) -> bool {
        if !certified || layout.len != source.bytes().len() {
            result == Err::<Self, TextAllocationError>(TextAllocationError::MismatchedSource)
        } else {
            exists|bytes: Result<usize, TextAllocationError>| #[trigger]
                Self::takes(layout, bytes) && match bytes {
                    Err(error) => result == Err::<Self, TextAllocationError>(error),
                    Ok(bytes) => exists|
                        settled: Result<(), TextAllocationError>,
                        charge: A::Token,
                    | #[trigger]
                        resized(allocation.token, bytes, settled, charge) && match settled {
                            Err(error) => result == Err::<Self, TextAllocationError>(error),
                            Ok(_) => {
                                &&& result is Ok
                                &&& *result->Ok_0.layout == layout
                                &&& result->Ok_0.source == source
                                &&& result->Ok_0.allocation == TextAllocationLease {
                                    token: charge,
                                    admission: allocation.admission,
                                }
                            },
                        },
                }
        }
    }

    /// Complete a backend's pre-admitted glyph allocation after native scratch
    /// has finished producing the retained Rust buffers.
    pub fn from_native(
        source: AdmittedTextSource<A>,
        layout: LineLayout<F>,
        allocation: TextAllocationReservation<A>,
    ) -> (result: Result<Self, TextAllocationError>)
        ensures
            layout.len != source.bytes().len() ==> result == Err::<Self, TextAllocationError>(
                TextAllocationError::MismatchedSource,
            ),
            allocation.source != Some(source) || allocation.admission != source.policy()
                ==> result == Err::<Self, TextAllocationError>(
                TextAllocationError::MismatchedSource,
            ),
            exists|certified: bool| #[trigger]
                allocation.certified_as(source, certified) && Self::completes(
                    certified,
                    source,
                    layout,
                    allocation,
                    result,
                ),
    {
        let certified: bool = allocation.certifies(&source);
        Self::from_certified(certified, source, layout, allocation)
    }

    /// Completes a glyph allocation, given whether it was certified for its source.
    /// One that was not, or whose layout is not as long as the source, is refused;
    /// else it fails only where the layout's size cannot be represented or the
    /// charge cannot be reconciled.
    pub fn from_certified(
        certified: bool,
        source: AdmittedTextSource<A>,
        layout: LineLayout<F>,
        allocation: TextAllocationReservation<A>,
    ) -> (result: Result<Self, TextAllocationError>)
        ensures
            Self::completes(certified, source, layout, allocation, result),
    {
        if !certified || layout.len != source.as_str().as_bytes().len() {
            return Err(TextAllocationError::MismatchedSource);
        }
        let taken = Self::allocation_bytes(&layout);
        let bytes: usize = match taken {
            Ok(bytes) => bytes,
            Err(error) => {
                return Err(error);
            },
        };
        let (allocation, settled) = allocation.reconciled(bytes);
        match settled {
            Ok(()) => Ok(
                AdmittedLineLayout {
                    layout: Arc::new(layout),
                    source,
                    allocation: allocation.publish(),
                },
            ),
            Err(error) => Err(error),
        }
    }

    /// Width of the full physical line.
    pub fn width(&self) -> (result: F)
        ensures
            result == (*self.layout)@.width,
    {
        self.layout.width
    }

    /// Exact source length in UTF-8 bytes.
    pub fn len(&self) -> (result: usize)
        ensures
            result == (*self.layout)@.len,
    {
        self.layout.len
    }

    /// Whether the source is empty.
    pub fn is_empty(&self) -> (result: bool)
        ensures
            result == ((*self.layout)@.len == 0),
    {
        self.layout.len == 0
    }

    /// Closest source boundary at a horizontal position.
    pub fn closest_index_for_x(&self, x: F) -> (result: usize)
        ensures
            result == (*self.layout)@.spec_closest_index_for_x(x),
    {
        self.layout.closest_index_for_x(x)
    }

    /// Horizontal position of a source boundary.
    pub fn x_for_index(&self, index: usize) -> (result: F)
        ensures
            result == (*self.layout)@.spec_x_for_index(index),
    {
        self.layout.x_for_index(index)
    }

    /// The text of the line.
    pub fn source(&self) -> (result: &AdmittedTextSource<A>)
        ensures
            *result == self.source,
    {
        &self.source
    }

    /// The line as it is painted: in one style, aligned in `bounds`.
    pub open spec fn text_line(
        self,
        bounds: Bounds<F>,
        line_height: F,
        style: AdmittedTextStyle<F>,
        surroundings: &TextSurroundings<F>,
    ) -> TextLineModel<F> {
        text_line(
            (*self.layout)@,
            seq![style.decoration((*self.layout)@.len as u32)],
            Seq::empty(),
            spec_admitted_line_origin(bounds, (*self.layout)@.width, style.text_align),
            line_height,
            TextAlign::Left,
            None,
            surroundings,
        )
    }

    /// What painting the line paints: first its background, then its text.
    pub fn paint(
        &self,
        bounds: Bounds<F>,
        line_height: F,
        style: &AdmittedTextStyle<F>,
        surroundings: &TextSurroundings<F>,
    ) -> (result: Result<(LinePlan<F>, LinePlan<F>), TextAllocationError>)
        requires
            surroundings.glyph_boxes@.len() == (*self.layout)@.runs.len(),
        ensures
            result is Ok <==> (*self.layout)@.len <= u32::MAX,
            match result {
                Ok((background, text)) => {
                    let line = self.text_line(bounds, line_height, *style, surroundings);
                    &&& background.layer == line.layer()
                    &&& background.commands@ == line.background_commands()
                    &&& text.layer == line.layer()
                    &&& text.commands@ == line.commands()
                },
                Err(error) => error == TextAllocationError::Overflow,
            },
    {
        let len: usize = self.layout.len;
        if len > u32::MAX as usize {
            return Err(TextAllocationError::Overflow);
        }
        let mut decoration_runs: Vec<DecorationRun<F>> = Vec::new();
        decoration_runs.push(
            DecorationRun {
                len: len as u32,
                color: style.color,
                background_color: style.background_color,
                underline: style.underline,
                strikethrough: style.strikethrough,
            },
        );
        proof {
            assert(decoration_runs@ =~= seq![style.decoration(len as u32)]);
            assert(offset_of(decoration_runs@, 1) == offset_of(decoration_runs@, 0) + len);
        }
        let origin = admitted_line_origin(bounds, self.layout.width, style.text_align);
        let background = self.layout.paint_background(
            origin,
            line_height,
            TextAlign::Left,
            None,
            &decoration_runs,
            surroundings,
        );
        let text = self.layout.paint(
            origin,
            line_height,
            TextAlign::Left,
            None,
            &decoration_runs,
            surroundings,
        );
        Ok((background, text))
    }

    /// Copying a subrange requires its own admitted source and glyph buffers.
    /// The initial owned route intentionally has no infallible split operation.
    pub fn try_split_at(&self, byte_index: usize) -> (result: Result<
        (Self, Self),
        TextAllocationError,
    >)
        ensures
            result == Err::<(Self, Self), TextAllocationError>(
                TextAllocationError::UnsupportedTransform,
            ),
    {
        Err(TextAllocationError::UnsupportedTransform)
    }
}

/// Explicit single-line styling keeps inherited wrapping and truncation out of
/// the admitted route rather than silently applying unowned transforms.
#[derive(Clone, Copy, Debug)]
pub struct AdmittedTextStyle<F> {
    /// An already registered base font. Tracked platform shaping may register fallback fonts.
    pub font_id: FontId,
    /// Shaping size in logical pixels.
    pub font_size: F,
    /// Height reserved for the physical line.
    pub line_height: F,
    /// Foreground color.
    pub color: Hsla<F>,
    /// Optional background color.
    pub background_color: Option<Hsla<F>>,
    /// Optional underline.
    pub underline: Option<UnderlineStyle<F>>,
    /// Optional strikethrough.
    pub strikethrough: Option<StrikethroughStyle<F>>,
    /// Alignment within the shaped line.
    pub text_align: TextAlign,
}

impl<F> AdmittedTextStyle<F> {
    /// The style as the decoration of `len` bytes.
    pub open spec fn decoration(self, len: u32) -> DecorationRun<F> {
        DecorationRun {
            len,
            color: self.color,
            background_color: self.background_color,
            underline: self.underline,
            strikethrough: self.strikethrough,
        }
    }
}

/// Where a line of this width starts in `bounds`.
pub open spec fn spec_admitted_line_origin<F: Scalar>(
    bounds: Bounds<F>,
    line_width: F,
    align: TextAlign,
) -> Point<F> {
    let offset = match align {
        TextAlign::Left => spec_zero::<F>(),
        TextAlign::Center => bounds.size.width.spec_minus(line_width).spec_over(spec_two()),
        TextAlign::Right => bounds.size.width.spec_minus(line_width),
    };
    Point { x: bounds.origin.x.spec_plus(offset), y: bounds.origin.y }
}

/// Where a line of this width starts in `bounds`.
pub fn admitted_line_origin<F: Scalar>(
    bounds: Bounds<F>,
    line_width: F,
    align: TextAlign,
) -> (result: Point<F>)
    ensures
        result == spec_admitted_line_origin(bounds, line_width, align),
{
    let offset = match align {
        TextAlign::Left => zero::<F>(),
        TextAlign::Center => bounds.size.width.minus(line_width).over(two()),
        TextAlign::Right => bounds.size.width.minus(line_width),
    };
    Point { x: bounds.origin.x.plus(offset), y: bounds.origin.y }
}

/// Geometry access that never exports a raw glyph vector or text alias.
pub struct AdmittedTextLayout<A: TextAllocationAdmission, F> {
    /// How the line is aligned.
    pub text_align: TextAlign,
    /// The line.
    pub line: Arc<AdmittedLineLayout<A, F>>,
    /// Where it was put last.
    pub bounds: Option<Bounds<F>>,
    /// The charge of the element.
    pub allocation: TextAllocationLease<A>,
}

impl<A: TextAllocationAdmission, F: Scalar> AdmittedTextLayout<A, F> {
    /// Where the line starts that was put in `bounds`.
    pub open spec fn line_origin(self, bounds: Bounds<F>) -> Point<F> {
        spec_admitted_line_origin(bounds, (*self.line.layout)@.width, self.text_align)
    }

    /// Closest source byte boundary at a point in window coordinates; none where the
    /// line was put nowhere yet.
    pub open spec fn spec_closest_index_for_position(self, position: Point<F>) -> Option<usize> {
        match self.bounds {
            Some(bounds) => Some(
                (*self.line.layout)@.spec_closest_index_for_x(
                    position.x.spec_minus(self.line_origin(bounds).x),
                ),
            ),
            None => None,
        }
    }

    /// Window position for an existing UTF-8 boundary; none where the line was put
    /// nowhere yet.
    pub open spec fn spec_position_for_index(self, index: usize) -> Option<Point<F>> {
        match self.bounds {
            Some(bounds) => if is_char_boundary(self.line.source.bytes(), index as int) {
                let origin = self.line_origin(bounds);
                Some(
                    Point {
                        x: origin.x.spec_plus((*self.line.layout)@.spec_x_for_index(index)),
                        y: origin.y,
                    },
                )
            } else {
                None
            },
            None => None,
        }
    }

    /// Native coverage of the actual cached layout used by this geometry.
    pub fn platform_coverage(&self) -> (result: TextPlatformCoverage)
        ensures
            result == self.line.source.inner.platform_coverage,
    {
        self.line.source.platform_coverage()
    }

    /// Bounds from the most recent prepaint.
    pub fn bounds(&self) -> (result: Option<Bounds<F>>)
        ensures
            result == self.bounds,
    {
        self.bounds
    }

    /// Puts the line in `bounds`.
    pub fn prepaint(&mut self, bounds: Bounds<F>)
        ensures
            *final(self) == (AdmittedTextLayout { bounds: Some(bounds), ..*old(self) }),
    {
        self.bounds = Some(bounds);
    }

    /// Closest source byte boundary at a point in window coordinates.
    pub fn closest_index_for_position(&self, position: Point<F>) -> (result: Option<usize>)
        ensures
            result == self.spec_closest_index_for_position(position),
    {
        match self.bounds {
            Some(bounds) => {
                let origin = admitted_line_origin(bounds, self.line.width(), self.text_align);
                Some(self.line.closest_index_for_x(position.x.minus(origin.x)))
            },
            None => None,
        }
    }

    /// Window position for an existing UTF-8 boundary.
    pub fn position_for_index(&self, index: usize) -> (result: Option<Point<F>>)
        ensures
            result == self.spec_position_for_index(index),
    {
        if !self.line.source.as_str().is_char_boundary(index) {
            return None;
        }
        match self.bounds {
            Some(bounds) => {
                let origin = admitted_line_origin(bounds, self.line.width(), self.text_align);
                Some(Point { x: origin.x.plus(self.line.x_for_index(index)), y: origin.y })
            },
            None => None,
        }
    }
}

/// A fallibly shaped physical line with no unowned layout conversion.
pub struct AdmittedStyledText<A: TextAllocationAdmission, F> {
    /// The line, and where it is.
    pub layout: AdmittedTextLayout<A, F>,
    /// How it looks.
    pub style: AdmittedTextStyle<F>,
}

/// What an element takes besides its line.
pub open spec fn element_bytes<A: TextAllocationAdmission, F>() -> int {
    (size_of::<AdmittedTextLayout<A, F>>() + 2 * size_of::<usize>()) as int
}

impl<A: TextAllocationAdmission, F: Scalar> AdmittedStyledText<A, F> {
    /// Admit and shape before creating the element, so failure is returned to
    /// the caller instead of becoming an empty result during measurement. `shape`
    /// shapes the source, once it is admitted.
    pub fn try_new_admitted<S>(
        text: &str,
        admission: Arc<A>,
        style: AdmittedTextStyle<F>,
        shape: S,
    ) -> (result: Result<Self, TextAllocationError>) where
        S: FnOnce(AdmittedTextSource<A>) -> Result<
            Arc<AdmittedLineLayout<A, F>>,
            TextAllocationError,
        >,

        requires
            forall|source: AdmittedTextSource<A>| #[trigger] call_requires(shape, (source,)),
        ensures
            exists|source: Result<AdmittedTextSource<A>, TextAllocationError>| #[trigger]
                admitted(
                    text.spec_bytes(),
                    admission,
                    TextPlatformCoverage::StrictAdmission,
                    source,
                ) && styled_if_admitted(source, style, shape, result),
    {
        let source = AdmittedTextSource::new(text, admission);
        match source {
            Ok(source) => Self::from_admitted_source(source, style, shape),
            Err(error) => Err(error),
        }
    }

    /// Preserve owned Rust allocations without claiming native scratch admission.
    pub fn try_new_tracked_platform<S>(
        text: &str,
        admission: Arc<A>,
        style: AdmittedTextStyle<F>,
        shape: S,
    ) -> (result: Result<Self, TextAllocationError>) where
        S: FnOnce(AdmittedTextSource<A>) -> Result<
            Arc<AdmittedLineLayout<A, F>>,
            TextAllocationError,
        >,

        requires
            forall|source: AdmittedTextSource<A>| #[trigger] call_requires(shape, (source,)),
        ensures
            exists|source: Result<AdmittedTextSource<A>, TextAllocationError>| #[trigger]
                admitted(
                    text.spec_bytes(),
                    admission,
                    TextPlatformCoverage::ObservedUnbounded,
                    source,
                ) && styled_if_admitted(source, style, shape, result),
    {
        let source = AdmittedTextSource::new_tracked_platform(text, admission);
        match source {
            Ok(source) => Self::from_admitted_source(source, style, shape),
            Err(error) => Err(error),
        }
    }

    /// Shapes an admitted source and makes an element of it. The element's own
    /// memory is reserved before `shape` shapes the source.
    pub fn from_admitted_source<S>(
        source: AdmittedTextSource<A>,
        style: AdmittedTextStyle<F>,
        shape: S,
    ) -> (result: Result<Self, TextAllocationError>) where
        S: FnOnce(AdmittedTextSource<A>) -> Result<
            Arc<AdmittedLineLayout<A, F>>,
            TextAllocationError,
        >,

        requires
            call_requires(shape, (source,)),
        ensures
            styled(source, style, shape, result),
    {
        let header: usize = match core::mem::size_of::<usize>().checked_mul(2) {
            Some(header) => header,
            None => {
                return Err(TextAllocationError::Overflow);
            },
        };
        let bytes: usize = match core::mem::size_of::<AdmittedTextLayout<A, F>>().checked_add(
            header,
        ) {
            Some(bytes) => bytes,
            None => {
                return Err(TextAllocationError::Overflow);
            },
        };
        let allocation = match TextAllocationReservation::reserve(
            source.admission(),
            TextAllocationClass::Element,
            bytes,
        ) {
            Ok(allocation) => allocation,
            Err(error) => {
                return Err(error);
            },
        };
        match shape(source) {
            Ok(line) => Ok(
                AdmittedStyledText {
                    layout: AdmittedTextLayout {
                        text_align: style.text_align,
                        line,
                        bounds: None,
                        allocation: allocation.publish(),
                    },
                    style,
                },
            ),
            Err(error) => Err(error),
        }
    }

    /// A geometry handle retaining the actual source and glyph owners.
    pub fn layout(&self) -> (result: &AdmittedTextLayout<A, F>)
        ensures
            *result == self.layout,
    {
        &self.layout
    }

    /// How large the element is, where its surroundings do not say.
    pub fn measure(&self, known_width: Option<F>, known_height: Option<F>) -> (result: Size<F>)
        ensures
            result.width == (match known_width {
                Some(width) => width,
                None => (*self.layout.line.layout)@.width,
            }),
            result.height == (match known_height {
                Some(height) => height,
                None => self.style.line_height,
            }),
    {
        Size {
            width: match known_width {
                Some(width) => width,
                None => self.layout.line.width(),
            },
            height: match known_height {
                Some(height) => height,
                None => self.style.line_height,
            },
        }
    }
}

/// What comes of making an element of a text: the error, where its source was not
/// admitted, and else what comes of shaping the source.
pub open spec fn styled_if_admitted<A: TextAllocationAdmission, F: Scalar, S>(
    source: Result<AdmittedTextSource<A>, TextAllocationError>,
    style: AdmittedTextStyle<F>,
    shape: S,
    result: Result<AdmittedStyledText<A, F>, TextAllocationError>,
) -> bool where
    S: FnOnce(AdmittedTextSource<A>) -> Result<Arc<AdmittedLineLayout<A, F>>, TextAllocationError>,
 {
    match source {
        Ok(source) => styled(source, style, shape, result),
        Err(error) => result == Err::<AdmittedStyledText<A, F>, TextAllocationError>(error),
    }
}

/// What comes of making an element: the policy is asked for exactly what the element
/// takes; where it agrees, the source is shaped; where that succeeds, the element
/// holds the line, put nowhere yet.
pub open spec fn styled<A: TextAllocationAdmission, F: Scalar, S>(
    source: AdmittedTextSource<A>,
    style: AdmittedTextStyle<F>,
    shape: S,
    result: Result<AdmittedStyledText<A, F>, TextAllocationError>,
) -> bool where
    S: FnOnce(AdmittedTextSource<A>) -> Result<Arc<AdmittedLineLayout<A, F>>, TextAllocationError>,
 {
    if element_bytes::<A, F>() > usize::MAX {
        result == Err::<AdmittedStyledText<A, F>, TextAllocationError>(
            TextAllocationError::Overflow,
        )
    } else {
        exists|answer: Result<A::Token, TextAllocationError>| #[trigger]
            call_ensures(
                A::reserve,
                (
                    &*source.policy(),
                    TextAllocationClass::Element,
                    element_bytes::<A, F>() as usize,
                ),
                answer,
            ) && match answer {
                Err(error) => result == Err::<AdmittedStyledText<A, F>, TextAllocationError>(
                    error,
                ),
                Ok(token) => exists|line: Result<
                    Arc<AdmittedLineLayout<A, F>>,
                    TextAllocationError,
                >| #[trigger]
                    call_ensures(shape, (source,), line) && result == (match line {
                        Err(error) => Err::<AdmittedStyledText<A, F>, TextAllocationError>(error),
                        Ok(line) => Ok::<AdmittedStyledText<A, F>, TextAllocationError>(
                            AdmittedStyledText {
                                layout: AdmittedTextLayout {
                                    text_align: style.text_align,
                                    line,
                                    bounds: None,
                                    allocation: TextAllocationLease {
                                        token,
                                        admission: source.policy(),
                                    },
                                },
                                style,
                            },
                        ),
                    }),
            }
    }
}

} // verus!
