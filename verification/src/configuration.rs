//! The configuration of a site: where its templates and its content lie,
//! where the build goes, and how it is served while one works on it.

use vstd::prelude::*;

verus! {

/// The configuration of a site.
pub struct Config {
    pub templates_directory: String,
    pub content_template: String,
    pub content_dir: String,
    pub build_config: BuildConfig,
    pub development_config: DevelopmentConfig,
}

/// Where the build goes.
pub struct BuildConfig {
    pub build_directory: String,
    pub content_directory: String,
    pub content_listing_page: String,
}

/// How the site is served during development.
pub struct DevelopmentConfig {
    pub port: u16,
}

impl Config {
    /// The configuration that a new site starts with: templates in
    /// `./templates`, content in `./content`, the build in `./build` with the
    /// content pages in `./build/blog` and the listing page `blog`, served
    /// on port 9999.
    pub fn init() -> (config: Config)
        ensures
            config.templates_directory@ == "./templates"@,
            config.content_template@ == "./templates/content.html"@,
            config.content_dir@ == "./content"@,
            config.build_config.build_directory@ == "./build"@,
            config.build_config.content_directory@ == "./build/blog"@,
            config.build_config.content_listing_page@ == "blog"@,
            config.development_config.port == 9999,
    {
        Config {
            build_config: BuildConfig {
                build_directory: "./build".to_owned(),
                content_directory: "./build/blog".to_owned(),
                content_listing_page: "blog".to_owned(),
            },
            development_config: DevelopmentConfig { port: 9999 },
            templates_directory: "./templates".to_owned(),
            content_template: "./templates/content.html".to_owned(),
            content_dir: "./content".to_owned(),
        }
    }
}

} // verus!
