use vstd::prelude::*;

verus! {

use vstd::string::*;

use crate::errors::BuildError;
use crate::errors::ConfigField;

/// Settings for the local preview server.
pub struct PreviewConfig {
    pub port: u16,
}

/// Social handles; each is optional and defaults to empty.
pub struct SocialConfig {
    pub twitter: Option<String>,
    pub github: Option<String>,
    pub mastodon: Option<String>,
}

/// Site-wide metadata.
pub struct SiteConfig {
    pub name: String,
    pub tagline: Option<String>,
    pub author: String,
    pub base_url: String,
}

/// The validated site configuration, loaded once per build.
pub struct Config {
    pub source: String,
    pub output: String,
    pub exclude: Vec<String>,
    pub input_date_format: String,
    pub output_date_format: String,
    pub theme: String,
    pub header_image: String,
    pub posts_per_page: u64,
    pub render_tags: bool,
    pub preview: PreviewConfig,
    pub social: SocialConfig,
    pub site: SiteConfig,
}

impl Config {
    /// The one internal invariant of a validated configuration.
    pub open spec fn wf(self) -> bool {
        self.posts_per_page >= 1
    }
}

/// The fields of a configuration document as parsed, before validation;
/// a field the document does not set is `None`.
pub struct RawConfig {
    pub source: Option<String>,
    pub output: Option<String>,
    pub exclude: Option<Vec<String>>,
    pub input_date_format: Option<String>,
    pub output_date_format: Option<String>,
    pub theme: Option<String>,
    pub header_image: Option<String>,
    pub posts_per_page: Option<u64>,
    pub render_tags: Option<bool>,
    pub preview_port: Option<u16>,
    pub social_twitter: Option<String>,
    pub social_github: Option<String>,
    pub social_mastodon: Option<String>,
    pub site_name: Option<String>,
    pub site_tagline: Option<String>,
    pub site_author: Option<String>,
    pub site_base_url: Option<String>,
}

/// Which configuration error a raw document draws, if any: the first required
/// field that is absent, or a page size of zero.
pub open spec fn config_error_of(raw: RawConfig) -> Option<ConfigField> {
    if raw.source is None {
        Some(ConfigField::Source)
    } else if raw.output is None {
        Some(ConfigField::Output)
    } else if raw.theme is None {
        Some(ConfigField::Theme)
    } else if raw.site_name is None {
        Some(ConfigField::SiteName)
    } else if raw.site_author is None {
        Some(ConfigField::SiteAuthor)
    } else if raw.site_base_url is None {
        Some(ConfigField::SiteBaseUrl)
    } else if raw.preview_port is None {
        Some(ConfigField::PreviewPort)
    } else if raw.posts_per_page matches Some(p) && p == 0 {
        Some(ConfigField::PostsPerPage)
    } else {
        None
    }
}

impl Config {
    /// Validates a parsed configuration document: every required field must
    /// be present, the page size must be positive, and every optional field
    /// falls back to its documented default.
    pub fn from_raw(raw: RawConfig) -> (r: Result<Config, BuildError>)
        ensures
            (match r {
                Ok(c) => {
                    &&& config_error_of(raw) is None
                    &&& c.wf()
                    &&& (raw.source matches Some(s) && c.source == s)
                    &&& (raw.output matches Some(s) && c.output == s)
                    &&& (raw.theme matches Some(s) && c.theme == s)
                    &&& (raw.site_name matches Some(s) && c.site.name == s)
                    &&& (raw.site_author matches Some(s) && c.site.author == s)
                    &&& (raw.site_base_url matches Some(s) && c.site.base_url == s)
                    &&& (raw.preview_port matches Some(p) && c.preview.port == p)
                    &&& c.exclude@ == (match raw.exclude {
                        Some(e) => e@,
                        None => Seq::<String>::empty(),
                    })
                    &&& c.posts_per_page == (match raw.posts_per_page {
                        Some(p) => p,
                        None => 10u64,
                    })
                    &&& c.render_tags == (match raw.render_tags {
                        Some(b) => b,
                        None => false,
                    })
                    &&& c.input_date_format@ == (match raw.input_date_format {
                        Some(s) => s@,
                        None => "yyyy MM dd"@,
                    })
                    &&& c.output_date_format@ == (match raw.output_date_format {
                        Some(s) => s@,
                        None => "MMM d yyyy"@,
                    })
                    &&& c.header_image@ == (match raw.header_image {
                        Some(s) => s@,
                        None => ""@,
                    })
                    &&& c.site.tagline == raw.site_tagline
                    &&& c.social.twitter == raw.social_twitter
                    &&& c.social.github == raw.social_github
                    &&& c.social.mastodon == raw.social_mastodon
                },
                Err(e) => {
                    &&& (e matches BuildError::Config(f) && config_error_of(raw)
                        == Some(f))
                },
            }),
    {
        let RawConfig {
            source,
            output,
            exclude,
            input_date_format,
            output_date_format,
            theme,
            header_image,
            posts_per_page,
            render_tags,
            preview_port,
            social_twitter,
            social_github,
            social_mastodon,
            site_name,
            site_tagline,
            site_author,
            site_base_url,
        } = raw;
        let source = match source {
            Some(s) => s,
            None => {
                return Err(BuildError::Config(ConfigField::Source));
            },
        };
        let output = match output {
            Some(s) => s,
            None => {
                return Err(BuildError::Config(ConfigField::Output));
            },
        };
        let theme = match theme {
            Some(s) => s,
            None => {
                return Err(BuildError::Config(ConfigField::Theme));
            },
        };
        let site_name = match site_name {
            Some(s) => s,
            None => {
                return Err(BuildError::Config(ConfigField::SiteName));
            },
        };
        let site_author = match site_author {
            Some(s) => s,
            None => {
                return Err(BuildError::Config(ConfigField::SiteAuthor));
            },
        };
        let site_base_url = match site_base_url {
            Some(s) => s,
            None => {
                return Err(BuildError::Config(ConfigField::SiteBaseUrl));
            },
        };
        let preview_port = match preview_port {
            Some(p) => p,
            None => {
                return Err(BuildError::Config(ConfigField::PreviewPort));
            },
        };
        let posts_per_page = match posts_per_page {
            Some(p) => {
                if p == 0 {
                    return Err(BuildError::Config(ConfigField::PostsPerPage));
                }
                p
            },
            None => 10,
        };
        Ok(Config {
            source,
            output,
            exclude: (match exclude {
                Some(e) => e,
                None => Vec::new(),
            }),
            input_date_format: (match input_date_format {
                Some(s) => s,
                None => String::from_str("yyyy MM dd"),
            }),
            output_date_format: (match output_date_format {
                Some(s) => s,
                None => String::from_str("MMM d yyyy"),
            }),
            theme,
            header_image: (match header_image {
                Some(s) => s,
                None => String::from_str(""),
            }),
            posts_per_page,
            render_tags: (match render_tags {
                Some(b) => b,
                None => false,
            }),
            preview: PreviewConfig { port: preview_port },
            social: SocialConfig {
                twitter: social_twitter,
                github: social_github,
                mastodon: social_mastodon,
            },
            site: SiteConfig {
                name: site_name,
                tagline: site_tagline,
                author: site_author,
                base_url: site_base_url,
            },
        })
    }
}

/// The documented default configuration, as written by the scaffolding
/// operation.
pub open spec fn is_default_config(c: Config) -> bool {
    &&& c.source@ == "content"@
    &&& c.output@ == "output"@
    &&& c.exclude@.len() == 1 && c.exclude@[0]@ == "drafts"@
    &&& c.input_date_format@ == "yyyy MM dd"@
    &&& c.output_date_format@ == "MMM d yyyy"@
    &&& c.theme@ == "wells"@
    &&& c.header_image@ == ""@
    &&& c.posts_per_page == 10
    &&& c.render_tags == false
    &&& c.preview.port == 9090
    &&& (c.social.twitter matches Some(s) && s@ == ""@)
    &&& (c.social.github matches Some(s) && s@ == ""@)
    &&& (c.social.mastodon matches Some(s) && s@ == ""@)
    &&& c.site.name@ == "New Rgent Site"@
    &&& (c.site.tagline matches Some(s) && s@ == "Your Catchy Tagline"@)
    &&& c.site.author@ == "You!"@
    &&& c.site.base_url@ == "https://blog.example.com"@
}

impl Default for Config {
    /// The configuration a fresh site starts from.
    fn default() -> (r: Config)
        ensures
            is_default_config(r),
            r.wf(),
    {
        let mut exclude: Vec<String> = Vec::new();
        exclude.push(String::from_str("drafts"));
        Config {
            source: String::from_str("content"),
            output: String::from_str("output"),
            exclude,
            input_date_format: String::from_str("yyyy MM dd"),
            output_date_format: String::from_str("MMM d yyyy"),
            theme: String::from_str("wells"),
            header_image: String::from_str(""),
            posts_per_page: 10,
            render_tags: false,
            preview: PreviewConfig { port: 9090 },
            social: SocialConfig {
                twitter: Some(String::from_str("")),
                github: Some(String::from_str("")),
                mastodon: Some(String::from_str("")),
            },
            site: SiteConfig {
                name: String::from_str("New Rgent Site"),
                tagline: Some(String::from_str("Your Catchy Tagline")),
                author: String::from_str("You!"),
                base_url: String::from_str("https://blog.example.com"),
            },
        }
    }
}

} // verus!
