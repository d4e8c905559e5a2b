//! The library's error type. Its three variants stand for the three failure
//! classes a frontend reports as exit codes: 1 usage or validation, 2 device
//! access, 3 verify mismatch.

use vstd::prelude::*;
use vstd::string::*;

use crate::text::cat3;

verus! {

/// `std::io::Error`, the error of the host's file and device calls.
#[verifier::external_type_specification]
#[verifier::external_body]
pub struct ExIoError(std::io::Error);

#[derive(Debug)]
pub enum Error {
    /// Bad manifest, bad arguments, failed validation.
    Validation(String),
    /// Device access problems: open, raw I/O, permissions.
    Device(String),
    /// A verify pass found on-card bytes that differ from the source image.
    VerifyMismatch(String),
}

pub type Result<T> = std::result::Result<T, Error>;

/// What an error says: its class and its message.
pub enum ErrorView {
    Validation(Seq<char>),
    Device(Seq<char>),
    VerifyMismatch(Seq<char>),
}

impl View for Error {
    type V = ErrorView;

    open spec fn view(&self) -> ErrorView {
        match self {
            Error::Validation(m) => ErrorView::Validation(m@),
            Error::Device(m) => ErrorView::Device(m@),
            Error::VerifyMismatch(m) => ErrorView::VerifyMismatch(m@),
        }
    }
}

impl ErrorView {
    pub open spec fn text(self) -> Seq<char> {
        match self {
            ErrorView::Validation(m) => m,
            ErrorView::Device(m) => m,
            ErrorView::VerifyMismatch(m) => m,
        }
    }
}

/// The error of `r` by what it says, or its value.
pub open spec fn outcome<T>(r: Result<T>) -> std::result::Result<T, ErrorView> {
    match r {
        Ok(v) => Ok(v),
        Err(e) => Err(e@),
    }
}

impl Error {
    pub fn exit_code(&self) -> (r: i32)
        ensures
            r == match self@ {
                ErrorView::Validation(_) => 1i32,
                ErrorView::Device(_) => 2i32,
                ErrorView::VerifyMismatch(_) => 3i32,
            },
    {
        match self {
            Error::Validation(_) => 1,
            Error::Device(_) => 2,
            Error::VerifyMismatch(_) => 3,
        }
    }

    pub fn validation(msg: &str) -> (r: Error)
        ensures
            r@ == ErrorView::Validation(msg@),
    {
        Error::Validation(msg.to_owned())
    }

    pub fn device(msg: &str) -> (r: Error)
        ensures
            r@ == ErrorView::Device(msg@),
    {
        Error::Device(msg.to_owned())
    }

    pub fn verify_mismatch(msg: &str) -> (r: Error)
        ensures
            r@ == ErrorView::VerifyMismatch(msg@),
    {
        Error::VerifyMismatch(msg.to_owned())
    }

    /// The message a user reads.
    pub fn message(&self) -> (r: String)
        ensures
            r@ == self@.text(),
    {
        match self {
            Error::Validation(m) => m.clone(),
            Error::Device(m) => m.clone(),
            Error::VerifyMismatch(m) => m.clone(),
        }
    }
}

/// `std::io::Error` rendered by its `Display`. The operating system words the
/// text, so nothing is said of it here.
#[verifier::external_body]
fn io_error_text(e: &std::io::Error) -> (r: String)
{
    e.to_string()
}

/// A device error: the context, then what the host said.
pub fn dev_err_text(ctx: &str, said: &str) -> (r: Error)
    ensures
        r@ == ErrorView::Device(ctx@ + ": "@ + said@),
{
    Error::Device(cat3(ctx, ": ", said))
}

/// A validation error: the context, then what the host said.
pub fn val_err_text(ctx: &str, said: &str) -> (r: Error)
    ensures
        r@ == ErrorView::Validation(ctx@ + ": "@ + said@),
{
    Error::Validation(cat3(ctx, ": ", said))
}

/// Wrap an I/O error with context, classifying it as a device error. What the
/// host said stands behind the context, worded by the operating system.
pub fn dev_err(ctx: &str, e: std::io::Error) -> (r: Error)
    ensures
        exists|said: Seq<char>| r@ == ErrorView::Device(ctx@ + ": "@ + said),
{
    let said = io_error_text(&e);
    dev_err_text(ctx, &said)
}

/// Wrap an I/O error with context, classifying it as a validation error
/// (such as an unreadable image file named by the user). What the host said
/// stands behind the context, worded by the operating system.
pub fn val_err(ctx: &str, e: std::io::Error) -> (r: Error)
    ensures
        exists|said: Seq<char>| r@ == ErrorView::Validation(ctx@ + ": "@ + said),
{
    let said = io_error_text(&e);
    val_err_text(ctx, &said)
}

} // verus!
