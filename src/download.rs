use vstd::prelude::*;

verus! {

#[verifier::external_type_specification]
#[verifier::external_body]
pub struct ExRegex(regex::Regex);

/// Relies on regex's `Regex::new`: compiles a pattern; `None` where it cannot.
#[verifier::external_body]
fn compile_pattern(pattern: &str) -> (r: Option<regex::Regex>) {
    regex::Regex::new(pattern).ok()
}

/// Relies on regex's `Regex::is_match`: whether the pattern matches anywhere in
/// the text.
#[verifier::external_body]
fn pattern_found(re: &regex::Regex, haystack: &str) -> (r: bool) {
    re.is_match(haystack)
}

/// Why a remote file could not be fetched.
#[derive(Debug)]
pub enum DownloadError {
    /// The address (carried here) does not name an HTTP or HTTPS resource.
    InvalidUrl(String),
    /// The pattern that recognises such addresses could not be compiled.
    BadPattern,
    /// The server did not answer with success.
    DownloadFailed,
}

impl Default for DownloadError {
    fn default() -> (r: DownloadError)
        ensures
            r is DownloadFailed,
    {
        DownloadError::DownloadFailed
    }
}

/// The address of a PNG file to fetch over HTTP or HTTPS.
#[derive(Debug)]
pub struct Download(String);

impl View for Download {
    type V = Seq<char>;

    closed spec fn view(&self) -> Seq<char> {
        self.0@
    }
}

impl Download {
    /// Accepts `url` when the scheme pattern was found in it, and refuses it
    /// with its own text otherwise.
    pub fn from_scheme_check(url: &str, scheme_found: bool) -> (r: Result<Download, DownloadError>)
        ensures
            scheme_found ==> r is Ok && r->Ok_0@ == url@,
            !scheme_found ==> r is Err && r->Err_0 is InvalidUrl && r->Err_0->InvalidUrl_0@ == url@,
    {
        if scheme_found {
            Ok(Download(url.to_owned()))
        } else {
            Err(DownloadError::InvalidUrl(url.to_owned()))
        }
    }

    /// Accepts an address that holds `http://` or `https://`, as the pattern
    /// `https?://` finds it.
    pub fn new(url: &str) -> (r: Result<Download, DownloadError>)
        ensures
            match r {
                Ok(d) => d@ == url@,
                Err(e) => (e is InvalidUrl && e->InvalidUrl_0@ == url@) || e is BadPattern,
            },
    {
        match compile_pattern("https?://") {
            Some(re) => {
                let found = pattern_found(&re, url);
                Download::from_scheme_check(url, found)
            },
            None => Err(DownloadError::BadPattern),
        }
    }

    /// The address.
    pub fn url(&self) -> (r: &str)
        ensures
            r@ == self@,
    {
        self.0.as_str()
    }
}

} // verus!
