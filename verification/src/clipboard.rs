use crate::domain::StoredImage;
use vstd::prelude::*;

verus! {

/// The decisions of the clipboard watcher: it remembers the last text it saw
/// and reports a text to record only when the clipboard holds a different one.
pub struct ClipboardWatcher {
    previous: String,
}

impl View for ClipboardWatcher {
    type V = Seq<char>;

    /// The last text seen.
    closed spec fn view(&self) -> Seq<char> {
        self.previous@
    }
}

impl ClipboardWatcher {
    /// A watcher that starts from the text the clipboard held (none: empty).
    pub fn new(initial: Option<String>) -> (watcher: Self)
        ensures
            watcher@ == match initial {
                Some(t) => t@,
                None => Seq::<char>::empty(),
            },
    {
        match initial {
            Some(text) => ClipboardWatcher { previous: text },
            None => ClipboardWatcher { previous: String::new() },
        }
    }

    /// Takes what a read of the clipboard gave (`None` when it held no text)
    /// and returns the text to record, if it changed.
    pub fn observe_text(&mut self, read: Option<String>) -> (changed: Option<String>)
        ensures
            match read {
                Some(t) => if t@ != old(self)@ {
                    changed == Some(t) && final(self)@ == t@
                } else {
                    changed is None && final(self)@ == old(self)@
                },
                None => changed is None && final(self)@ == old(self)@,
            },
    {
        match read {
            Some(text) => {
                if text == self.previous {
                    None
                } else {
                    self.previous = text.clone();
                    Some(text)
                }
            },
            None => None,
        }
    }
}

/// The size of a clipboard image as `u32`s, when both sides fit.
pub fn image_dimensions(width: usize, height: usize) -> (size: Option<(u32, u32)>)
    ensures
        match size {
            Some((w, h)) => w == width && h == height,
            None => width > u32::MAX || height > u32::MAX,
        },
{
    if (width as u64) <= (u32::MAX as u64) && (height as u64) <= (u32::MAX as u64) {
        Some((width as u32, height as u32))
    } else {
        None
    }
}

/// Why a stored image cannot be put on the clipboard.
#[derive(Debug, Clone, Copy, PartialEq, Eq, Structural)]
pub enum CopyImageError {
    WidthInvalid,
    HeightInvalid,
    TooLarge,
    PixelsInvalid,
}

impl CopyImageError {
    /// A sentence that says what went wrong.
    pub fn message(&self) -> (text: &'static str)
        ensures
            text == match *self {
                CopyImageError::WidthInvalid => "saved image width is invalid",
                CopyImageError::HeightInvalid => "saved image height is invalid",
                CopyImageError::TooLarge => "saved image dimensions are too large",
                CopyImageError::PixelsInvalid => "saved image pixels are invalid",
            },
    {
        match self {
            CopyImageError::WidthInvalid => "saved image width is invalid",
            CopyImageError::HeightInvalid => "saved image height is invalid",
            CopyImageError::TooLarge => "saved image dimensions are too large",
            CopyImageError::PixelsInvalid => "saved image pixels are invalid",
        }
    }
}

fn side_as_usize(side: i64) -> (r: Option<usize>)
    ensures
        match r {
            Some(n) => n == side,
            None => side < 0 || side > usize::MAX,
        },
{
    if side < 0 {
        None
    } else if (side as u64) > (usize::MAX as u64) {
        None
    } else {
        Some(side as usize)
    }
}

/// The width and height with which a stored image goes to the clipboard: both
/// must be non-negative `usize`s and the pixels exactly width × height × 4
/// bytes.
pub fn image_copy_size(image: &StoredImage) -> (size: Result<(usize, usize), CopyImageError>)
    ensures
        ({
            let w = image.width as int;
            let h = image.height as int;
            let w_ok = 0 <= w <= usize::MAX;
            let h_ok = 0 <= h <= usize::MAX;
            match size {
                Ok((width, height)) => {
                    &&& width == w && height == h
                    &&& w * h * 4 <= usize::MAX
                    &&& image.rgba@.len() == w * h * 4
                },
                Err(CopyImageError::WidthInvalid) => !w_ok,
                Err(CopyImageError::HeightInvalid) => w_ok && !h_ok,
                Err(CopyImageError::TooLarge) => w_ok && h_ok && w * h * 4 > usize::MAX,
                Err(CopyImageError::PixelsInvalid) => w_ok && h_ok && w * h * 4 <= usize::MAX
                    && image.rgba@.len() != w * h * 4,
            }
        }),
{
    let width = match side_as_usize(image.width) {
        Some(w) => w,
        None => return Err(CopyImageError::WidthInvalid),
    };
    let height = match side_as_usize(image.height) {
        Some(h) => h,
        None => return Err(CopyImageError::HeightInvalid),
    };
    let pixels = match width.checked_mul(height) {
        Some(p) => p,
        None => {
            assert(width as int * height as int * 4 > usize::MAX) by (nonlinear_arith)
                requires
                    width as int * height as int > usize::MAX,
            ;
            return Err(CopyImageError::TooLarge);
        },
    };
    let expected = match pixels.checked_mul(4) {
        Some(n) => n,
        None => return Err(CopyImageError::TooLarge),
    };
    if image.rgba.len() != expected {
        return Err(CopyImageError::PixelsInvalid);
    }
    Ok((width, height))
}

} // verus!
