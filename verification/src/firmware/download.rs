//! The firmware files, where they come from, and when a download is sound.
//!
//! The host fetches the files into a staging directory and reports what it
//! found there. A file that is much smaller than the real one is a failed
//! download, and the main firmware must name a WLAN version.

use crate::text::{contains, contains_text};
use vstd::prelude::*;
use vstd::string::StringExecFns;

verus! {

/// The files that make up the firmware, in the order in which they are
/// fetched and checked.
#[derive(Debug, Clone, Copy, PartialEq, Eq, Structural)]
pub enum FirmwareFile {
    /// Main WiFi firmware.
    Amss,
    /// Firmware of the M3 microcontroller.
    M3,
    /// Board configuration data.
    Board2,
}

/// Why staged firmware is refused.
#[derive(Debug, Clone, Copy, PartialEq, Eq, Structural)]
pub enum FirmwareError {
    /// The server answered the request for a file with a status other than
    /// success.
    HttpStatus { file: FirmwareFile, status: u16 },
    /// A file is not there.
    Missing { file: FirmwareFile },
    /// A file is smaller than any sound copy of it.
    TooSmall { file: FirmwareFile, size: u64, min_size: u64 },
    /// No version could be read from the main firmware.
    VersionUnreadable,
    /// The main firmware names no WLAN version.
    UnexpectedVersion,
}

/// The directory of the firmware files in the upstream repository.
pub open spec fn base_url() -> Seq<char> {
    "https://gitlab.com/kernel-firmware/linux-firmware/-/raw/main/ath11k/QCA2066/hw2.1"@
}

impl FirmwareFile {
    /// The file's name.
    pub open spec fn file_name(self) -> Seq<char> {
        match self {
            FirmwareFile::Amss => "amss.bin"@,
            FirmwareFile::M3 => "m3.bin"@,
            FirmwareFile::Board2 => "board-2.bin"@,
        }
    }

    /// The size in bytes below which a copy of the file cannot be sound.
    pub open spec fn smallest_size(self) -> u64 {
        match self {
            FirmwareFile::Amss => 5_000_000,
            FirmwareFile::M3 => 200_000,
            FirmwareFile::Board2 => 500_000,
        }
    }

    /// Where the file is fetched from.
    pub open spec fn location(self) -> Seq<char> {
        base_url() + "/"@ + self.file_name()
    }

    /// The verdict on the status of the server's answer: the codes 200 to
    /// 299 are a success.
    pub open spec fn status_verdict(self, status: u16) -> Result<(), FirmwareError> {
        if 200 <= status <= 299 {
            Ok(())
        } else {
            Err(FirmwareError::HttpStatus { file: self, status })
        }
    }

    /// The verdict on a download: the status is looked at first, the size of
    /// what came only after a success.
    pub open spec fn download_verdict(self, status: u16, size: u64) -> Result<(), FirmwareError> {
        if self.status_verdict(status) is Err {
            self.status_verdict(status)
        } else {
            self.size_verdict(size)
        }
    }

    /// The verdict on a copy of `size` bytes.
    pub open spec fn size_verdict(self, size: u64) -> Result<(), FirmwareError> {
        if size < self.smallest_size() {
            Err(FirmwareError::TooSmall { file: self, size, min_size: self.smallest_size() })
        } else {
            Ok(())
        }
    }

    /// The verdict on a staged copy: it must be there and large enough.
    pub open spec fn staged_verdict(self, size: Option<u64>) -> Result<(), FirmwareError> {
        match size {
            None => Err(FirmwareError::Missing { file: self }),
            Some(size) => self.size_verdict(size),
        }
    }

    /// The firmware files in the order in which they are fetched.
    pub fn all() -> (files: [FirmwareFile; 3])
        ensures
            files@ == seq![FirmwareFile::Amss, FirmwareFile::M3, FirmwareFile::Board2],
    {
        let files: [FirmwareFile; 3] = [FirmwareFile::Amss, FirmwareFile::M3, FirmwareFile::Board2];
        assert(files@ =~= seq![FirmwareFile::Amss, FirmwareFile::M3, FirmwareFile::Board2]);
        files
    }

    /// The file's name.
    pub fn name(self) -> (name: &'static str)
        ensures
            name@ == self.file_name(),
    {
        match self {
            FirmwareFile::Amss => "amss.bin",
            FirmwareFile::M3 => "m3.bin",
            FirmwareFile::Board2 => "board-2.bin",
        }
    }

    /// What the file holds, in words.
    pub fn description(self) -> (description: &'static str)
        ensures
            description@ == match self {
                FirmwareFile::Amss => "Main WiFi firmware"@,
                FirmwareFile::M3 => "M3 microcontroller firmware"@,
                FirmwareFile::Board2 => "Board configuration data"@,
            },
    {
        match self {
            FirmwareFile::Amss => "Main WiFi firmware",
            FirmwareFile::M3 => "M3 microcontroller firmware",
            FirmwareFile::Board2 => "Board configuration data",
        }
    }

    /// The size in bytes below which a copy of the file cannot be sound.
    pub fn min_size(self) -> (min_size: u64)
        ensures
            min_size == self.smallest_size(),
    {
        match self {
            FirmwareFile::Amss => 5_000_000,
            FirmwareFile::M3 => 200_000,
            FirmwareFile::Board2 => 500_000,
        }
    }

    /// Where the file is fetched from.
    pub fn url(self) -> (url: String)
        ensures
            url@ == self.location(),
    {
        let mut url: String =
            "https://gitlab.com/kernel-firmware/linux-firmware/-/raw/main/ath11k/QCA2066/hw2.1".to_owned();
        url.append("/");
        url.append(self.name());
        url
    }

    /// Checks the status code of the server's answer.
    pub fn check_status(self, status: u16) -> (verdict: Result<(), FirmwareError>)
        ensures
            verdict == self.status_verdict(status),
    {
        if 200 <= status && status <= 299 {
            Ok(())
        } else {
            Err(FirmwareError::HttpStatus { file: self, status })
        }
    }

    /// Checks a download by the status code of the answer and the size in
    /// bytes of what came with it.
    pub fn check_download(self, status: u16, size: u64) -> (verdict: Result<(), FirmwareError>)
        ensures
            verdict == self.download_verdict(status, size),
    {
        let answered: Result<(), FirmwareError> = self.check_status(status);
        if answered.is_err() {
            return answered;
        }
        self.check_size(size)
    }

    /// Checks the size of a downloaded copy.
    pub fn check_size(self, size: u64) -> (verdict: Result<(), FirmwareError>)
        ensures
            verdict == self.size_verdict(size),
    {
        let min_size: u64 = self.min_size();
        if size < min_size {
            Err(FirmwareError::TooSmall { file: self, size, min_size })
        } else {
            Ok(())
        }
    }

    /// Checks a staged copy: `size` is its size in bytes, `None` where the
    /// file is not there.
    pub fn check_staged(self, size: Option<u64>) -> (verdict: Result<(), FirmwareError>)
        ensures
            verdict == self.staged_verdict(size),
    {
        match size {
            None => Err(FirmwareError::Missing { file: self }),
            Some(size) => self.check_size(size),
        }
    }
}

/// The verdict on a version text: it is there and names a WLAN version.
pub open spec fn version_verdict(version: Option<Seq<char>>) -> Result<(), FirmwareError> {
    match version {
        None => Err(FirmwareError::VersionUnreadable),
        Some(text) => if contains_text(text, "WLAN"@) {
            Ok(())
        } else {
            Err(FirmwareError::UnexpectedVersion)
        },
    }
}

/// The verdict on staged firmware: that of the first check that fails, the
/// files in their order and the version last.
pub open spec fn staging_verdict(
    amss_size: Option<u64>,
    m3_size: Option<u64>,
    board_size: Option<u64>,
    version: Option<Seq<char>>,
) -> Result<(), FirmwareError> {
    if FirmwareFile::Amss.staged_verdict(amss_size) is Err {
        FirmwareFile::Amss.staged_verdict(amss_size)
    } else if FirmwareFile::M3.staged_verdict(m3_size) is Err {
        FirmwareFile::M3.staged_verdict(m3_size)
    } else if FirmwareFile::Board2.staged_verdict(board_size) is Err {
        FirmwareFile::Board2.staged_verdict(board_size)
    } else {
        version_verdict(version)
    }
}

/// Checks the version text that was read from the main firmware, `None`
/// where none could be read.
pub fn check_version(version: Option<&str>) -> (verdict: Result<(), FirmwareError>)
    ensures
        verdict == version_verdict(
            match version {
                Some(text) => Some(text@),
                None => None,
            },
        ),
{
    match version {
        None => Err(FirmwareError::VersionUnreadable),
        Some(text) => if contains(text, "WLAN") {
            Ok(())
        } else {
            Err(FirmwareError::UnexpectedVersion)
        },
    }
}

/// Validates staged firmware from the sizes of the three files, each `None`
/// where the file is not there, and the version text read from the main
/// firmware.
pub fn validate(
    amss_size: Option<u64>,
    m3_size: Option<u64>,
    board_size: Option<u64>,
    version: Option<&str>,
) -> (verdict: Result<(), FirmwareError>)
    ensures
        verdict == staging_verdict(
            amss_size,
            m3_size,
            board_size,
            match version {
                Some(text) => Some(text@),
                None => None,
            },
        ),
{
    let amss: Result<(), FirmwareError> = FirmwareFile::Amss.check_staged(amss_size);
    if amss.is_err() {
        return amss;
    }
    let m3: Result<(), FirmwareError> = FirmwareFile::M3.check_staged(m3_size);
    if m3.is_err() {
        return m3;
    }
    let board: Result<(), FirmwareError> = FirmwareFile::Board2.check_staged(board_size);
    if board.is_err() {
        return board;
    }
    check_version(version)
}

} // verus!
