//! Display controller models: which transports each supports, its native
//! framebuffer extent, and the pixel format its initialization configures.

use vstd::prelude::*;

use crate::color::{BitsPerPixel, Color565, Color666, WireColor};

verus! {

/// The physical transport an interface drives.
#[derive(Clone, Copy, Debug, PartialEq, Eq, Structural)]
pub enum InterfaceKind {
    Serial4Line,
    Parallel8Bit,
    Parallel16Bit,
}

/// A set of transports.
#[derive(Clone, Copy, Debug, PartialEq, Eq, Structural)]
pub struct InterfaceKinds {
    pub serial_4_line: bool,
    pub parallel_8_bit: bool,
    pub parallel_16_bit: bool,
}

impl InterfaceKinds {
    pub open spec fn has(self, kind: InterfaceKind) -> bool {
        match kind {
            InterfaceKind::Serial4Line => self.serial_4_line,
            InterfaceKind::Parallel8Bit => self.parallel_8_bit,
            InterfaceKind::Parallel16Bit => self.parallel_16_bit,
        }
    }

    /// Every transport.
    pub fn all() -> (r: Self)
        ensures
            forall|k: InterfaceKind| r.has(k),
    {
        InterfaceKinds { serial_4_line: true, parallel_8_bit: true, parallel_16_bit: true }
    }

    pub fn contains(&self, kind: InterfaceKind) -> (r: bool)
        ensures
            r == self.has(kind),
    {
        match kind {
            InterfaceKind::Serial4Line => self.serial_4_line,
            InterfaceKind::Parallel8Bit => self.parallel_8_bit,
            InterfaceKind::Parallel16Bit => self.parallel_16_bit,
        }
    }
}

/// A model cannot be initialized over this transport: a wiring or
/// configuration mistake, not a transient fault.
#[derive(Clone, Copy, Debug, PartialEq, Eq, Structural)]
pub enum ModelError {
    UnsupportedInterface(InterfaceKind),
}

/// Accepts `kind` exactly when `supported` holds it.
pub fn check_interface_kind(supported: InterfaceKinds, kind: InterfaceKind) -> (r: Result<
    (),
    ModelError,
>)
    ensures
        supported.has(kind) ==> r == Ok::<(), ModelError>(()),
        !supported.has(kind) ==> r == Err::<(), ModelError>(ModelError::UnsupportedInterface(kind)),
{
    if supported.contains(kind) {
        Ok(())
    } else {
        Err(ModelError::UnsupportedInterface(kind))
    }
}

/// Pixel format for the display (DPI) and control (DBI) interfaces.
#[derive(Clone, Copy, Debug, PartialEq, Eq, Structural)]
pub struct PixelFormat {
    pub dpi: BitsPerPixel,
    pub dbi: BitsPerPixel,
}

/// Both interfaces at the same depth.
pub open spec fn uniform_format(bpp: BitsPerPixel) -> PixelFormat {
    PixelFormat { dpi: bpp, dbi: bpp }
}

impl PixelFormat {
    /// Both interfaces at depth `bpp`.
    pub fn with_all(bpp: BitsPerPixel) -> (r: Self)
        ensures
            r == uniform_format(bpp),
    {
        PixelFormat { dpi: bpp, dbi: bpp }
    }
}

/// The model's part of initialization: validates the transport and picks the
/// pixel format from the color encoding, for the shared command sequence to
/// configure.
pub fn prepare_init<C: WireColor>(supported: InterfaceKinds, kind: InterfaceKind) -> (r: Result<
    PixelFormat,
    ModelError,
>)
    ensures
        supported.has(kind) ==> r == Ok::<PixelFormat, ModelError>(uniform_format(C::depth())),
        !supported.has(kind) ==> r == Err::<PixelFormat, ModelError>(
            ModelError::UnsupportedInterface(kind),
        ),
{
    match check_interface_kind(supported, kind) {
        Ok(()) => Ok(PixelFormat::with_all(C::bits_per_pixel())),
        Err(e) => Err(e),
    }
}

/// A display controller.
pub trait Model {
    /// Transports the controller can be driven over.
    spec fn spec_supports(kind: InterfaceKind) -> bool;

    /// Depth of the controller's color encoding.
    spec fn spec_depth() -> BitsPerPixel;

    /// Native framebuffer width and height.
    spec fn spec_framebuffer_size() -> (u16, u16);

    fn framebuffer_size(&self) -> (r: (u16, u16))
        ensures
            r == Self::spec_framebuffer_size(),
    ;

    fn supported_interfaces(&self) -> (r: InterfaceKinds)
        ensures
            forall|k: InterfaceKind| r.has(k) == Self::spec_supports(k),
    ;

    /// Validates the transport and returns the pixel format to configure;
    /// fails, before any bus traffic, on a transport the model does not support.
    fn init(&mut self, kind: InterfaceKind) -> (r: Result<PixelFormat, ModelError>)
        ensures
            Self::spec_supports(kind) ==> r == Ok::<PixelFormat, ModelError>(
                uniform_format(Self::spec_depth()),
            ),
            !Self::spec_supports(kind) ==> r == Err::<PixelFormat, ModelError>(
                ModelError::UnsupportedInterface(kind),
            ),
    ;
}

/// ILI9341 display in Rgb565 color mode.
pub struct ILI9341Rgb565;

/// ILI9341 display in Rgb666 color mode.
pub struct ILI9341Rgb666;

impl Model for ILI9341Rgb565 {
    open spec fn spec_supports(kind: InterfaceKind) -> bool {
        true
    }

    open spec fn spec_depth() -> BitsPerPixel {
        BitsPerPixel::Sixteen
    }

    open spec fn spec_framebuffer_size() -> (u16, u16) {
        (240, 320)
    }

    fn framebuffer_size(&self) -> (r: (u16, u16)) {
        (240, 320)
    }

    fn supported_interfaces(&self) -> (r: InterfaceKinds) {
        InterfaceKinds::all()
    }

    fn init(&mut self, kind: InterfaceKind) -> (r: Result<PixelFormat, ModelError>) {
        let supported = self.supported_interfaces();
        prepare_init::<Color565>(supported, kind)
    }
}

impl Model for ILI9341Rgb666 {
    open spec fn spec_supports(kind: InterfaceKind) -> bool {
        true
    }

    open spec fn spec_depth() -> BitsPerPixel {
        BitsPerPixel::Eighteen
    }

    open spec fn spec_framebuffer_size() -> (u16, u16) {
        (240, 320)
    }

    fn framebuffer_size(&self) -> (r: (u16, u16)) {
        (240, 320)
    }

    fn supported_interfaces(&self) -> (r: InterfaceKinds) {
        InterfaceKinds::all()
    }

    fn init(&mut self, kind: InterfaceKind) -> (r: Result<PixelFormat, ModelError>) {
        let supported = self.supported_interfaces();
        prepare_init::<Color666>(supported, kind)
    }
}

} // verus!
