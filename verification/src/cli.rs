//! The command line's settings.

use vstd::prelude::*;
use crate::output::IpAddress;

verus! {

/// The settings a run is started with. By default the current directory is
/// served on `0.0.0.0:3000`, with listings, QR code and live reload on.
pub struct Args {
    /// Directory to serve.
    pub directory: String,
    /// Interface to bind to.
    pub host: IpAddress,
    /// Port to listen on; 0 selects a free port.
    pub port: u16,
    /// Fall back to `index.html` for single-page applications.
    pub single: bool,
    /// Do not print the QR code.
    pub no_qr: bool,
    /// Disable the injected file explorer.
    pub no_ls: bool,
    /// Disable file watching and automatic browser refresh.
    pub no_reload: bool,
}

} // verus!
