use just_html::config::{ConfigCommand, ConfigCommands};
use just_html::configuration::Config;
use just_html::init::InitCommand;
use just_html::serve::{get_port, ServeCommand};
use just_html::{configuration_file_path_or_default, ConfigurationFilePath};

#[test]
fn a_new_site_starts_with_the_default_configuration() {
    let config = Config::init();
    assert_eq!(config.templates_directory, "./templates");
    assert_eq!(config.content_template, "./templates/content.html");
    assert_eq!(config.content_dir, "./content");
    assert_eq!(config.build_config.build_directory, "./build");
    assert_eq!(config.build_config.content_directory, "./build/blog");
    assert_eq!(config.build_config.content_listing_page, "blog");
    assert_eq!(config.development_config.port, 9999);
}

#[test]
fn the_port_of_the_command_line_comes_first() {
    let config = Config::init();
    assert_eq!(get_port(&ServeCommand { debug: false, port: Some(8080) }, &config), 8080);
    assert_eq!(get_port(&ServeCommand { debug: true, port: None }, &config), 9999);
}

#[test]
fn the_configuration_file_is_the_one_given_or_the_default() {
    let given = InitCommand {
        debug: false,
        configuration_file_path: Some(String::from("site/jht.toml")),
    };
    assert_eq!(given.path(), "site/jht.toml");
    assert_eq!(given.configuration_file_path(), &Some(String::from("site/jht.toml")));
    let default = InitCommand { debug: false, configuration_file_path: None };
    assert_eq!(default.path(), "./config.toml");
    let command = ConfigCommand {
        debug: false,
        command: Some(ConfigCommands::Validate),
        configuration_file_path: None,
    };
    assert_eq!(command.path(), "./config.toml");
    assert_eq!(command.command, Some(ConfigCommands::Validate));
    assert_eq!(configuration_file_path_or_default(&None), "./config.toml");
    assert_eq!(configuration_file_path_or_default(&Some(String::from("a.toml"))), "a.toml");
}
