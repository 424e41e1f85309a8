use vstd::prelude::*;

verus! {

/// The server configuration the path-resolution core reads: the recognised
/// domain names, the directory layout of the content tree, and the default
/// and not-found filenames. The listening socket, timeouts and buffer sizes
/// belong to the connection-handling layer outside this crate.
pub struct Config {
    pub domain_names: Vec<String>,
    pub top_directory: String,
    pub root_directory: String,
    pub subdomain_directory: String,
    pub request_default_filename: String,
    pub not_found_filename: String,
}

/// The mathematical content of a configuration.
pub struct ConfigModel {
    pub domain_names: Seq<Seq<char>>,
    pub top_directory: Seq<char>,
    pub root_directory: Seq<char>,
    pub subdomain_directory: Seq<char>,
    pub request_default_filename: Seq<char>,
    pub not_found_filename: Seq<char>,
}

impl View for Config {
    type V = ConfigModel;

    open spec fn view(&self) -> ConfigModel {
        ConfigModel {
            domain_names: self.domain_names.deep_view(),
            top_directory: self.top_directory@,
            root_directory: self.root_directory@,
            subdomain_directory: self.subdomain_directory@,
            request_default_filename: self.request_default_filename@,
            not_found_filename: self.not_found_filename@,
        }
    }
}

} // verus!
