//! Run configuration: required settings, the request URL and the response
//! status rule.

use vstd::prelude::*;

verus! {

/// The sort parameter sent when none is given.
pub const DEFAULT_SORT: &'static str = "-created";

/// The page-size parameter sent when none is given.
pub const DEFAULT_PER_PAGE: &'static str = "20";

/// A required setting.
#[derive(Clone, Copy, Debug, PartialEq, Eq, Structural)]
pub enum Setting {
    AccessToken,
    UrlBase,
    MdFileDestination,
}

/// The name of the environment variable that holds a setting.
pub open spec fn var_name_of(s: Setting) -> Seq<char> {
    match s {
        Setting::AccessToken => "ACCESS_TOKEN"@,
        Setting::UrlBase => "URL_BASE"@,
        Setting::MdFileDestination => "MD_FILE_DESTINATION"@,
    }
}

impl Setting {
    /// The name of the environment variable that holds the setting.
    pub fn var_name(&self) -> (r: &'static str)
        ensures
            r@ == var_name_of(*self),
    {
        match self {
            Setting::AccessToken => "ACCESS_TOKEN",
            Setting::UrlBase => "URL_BASE",
            Setting::MdFileDestination => "MD_FILE_DESTINATION",
        }
    }
}

/// A required setting is absent.
#[derive(Clone, Copy, Debug, PartialEq, Eq, Structural)]
pub enum ConfigError {
    Missing(Setting),
}

/// The response carried a status outside 200..=299.
#[derive(Clone, Copy, Debug, PartialEq, Eq, Structural)]
pub enum FetchError {
    RequestFailed(u16),
}

/// The settings a run needs, all present.
#[derive(Clone, Debug)]
pub struct Config {
    pub access_token: String,
    pub url_base: String,
    pub md_file_destination: String,
}

impl Config {
    /// Builds the configuration from the three settings as found; the first
    /// absent one, in the order token, base URL, destination, is reported.
    pub fn from_values(
        access_token: Option<String>,
        url_base: Option<String>,
        md_file_destination: Option<String>,
    ) -> (r: Result<Config, ConfigError>)
        ensures
            r is Ok <==> (access_token is Some && url_base is Some && md_file_destination is Some),
            r matches Ok(c) ==> c.access_token@ == access_token->Some_0@ && c.url_base@
                == url_base->Some_0@ && c.md_file_destination@ == md_file_destination->Some_0@,
            access_token is None ==> r == Err::<Config, ConfigError>(
                ConfigError::Missing(Setting::AccessToken),
            ),
            access_token is Some && url_base is None ==> r == Err::<Config, ConfigError>(
                ConfigError::Missing(Setting::UrlBase),
            ),
            access_token is Some && url_base is Some && md_file_destination is None ==> r == Err::<
                Config,
                ConfigError,
            >(ConfigError::Missing(Setting::MdFileDestination)),
    {
        match (access_token, url_base, md_file_destination) {
            (None, _, _) => Err(ConfigError::Missing(Setting::AccessToken)),
            (Some(_), None, _) => Err(ConfigError::Missing(Setting::UrlBase)),
            (Some(_), Some(_), None) => Err(ConfigError::Missing(Setting::MdFileDestination)),
            (Some(a), Some(u), Some(m)) => Ok(
                Config { access_token: a, url_base: u, md_file_destination: m },
            ),
        }
    }

    /// The request URL `{url_base}?sort={sort}&perpage={perpage}`.
    pub fn request_url(&self, sort: &str, perpage: &str) -> (r: String)
        ensures
            r@ == request_url_text(self.url_base@, sort@, perpage@),
    {
        let mut out = self.url_base.clone();
        out.append("?sort=");
        out.append(sort);
        out.append("&perpage=");
        out.append(perpage);
        proof {
            reveal_strlit("?sort=");
            reveal_strlit("&perpage=");
        }
        assert(out@ =~= request_url_text(self.url_base@, sort@, perpage@));
        out
    }
}

/// `{base}?sort={sort}&perpage={perpage}`.
pub open spec fn request_url_text(base: Seq<char>, sort: Seq<char>, perpage: Seq<char>) -> Seq<
    char,
> {
    base + seq!['?', 's', 'o', 'r', 't', '='] + sort + seq![
        '&',
        'p',
        'e',
        'r',
        'p',
        'a',
        'g',
        'e',
        '=',
    ] + perpage
}

/// Accepts a response status in 200..=299; any other status fails the run.
pub fn check_status(status: u16) -> (r: Result<(), FetchError>)
    ensures
        r is Ok <==> 200 <= status <= 299,
        r is Err ==> r == Err::<(), FetchError>(FetchError::RequestFailed(status)),
{
    if 200 <= status && status <= 299 {
        Ok(())
    } else {
        Err(FetchError::RequestFailed(status))
    }
}

} // verus!
