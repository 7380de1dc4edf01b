//! The applications for which a search provider is offered.

use vstd::prelude::*;
use vstd::string::*;

verus! {

/// The name that the service asks for on the bus.
pub const BUSNAME: &'static str = "de.swsnr.searchprovider.VSCode";

/// Where an application keeps its configuration.
#[derive(Debug, Copy, Clone)]
pub struct ConfigLocation<'a> {
    /// The name of the directory, below the user's configuration directory.
    pub dirname: &'a str,
}

/// A search provider that this service offers.
#[derive(Debug, Copy, Clone)]
pub struct ProviderDefinition<'a> {
    /// A label for people to read.
    pub label: &'a str,
    /// The id of the application: the name of its desktop file.
    pub desktop_id: &'a str,
    /// The object path of the provider, relative to that of the service.
    pub relative_obj_path: &'a str,
    /// Where the application keeps its configuration.
    pub config: ConfigLocation<'a>,
}

impl ProviderDefinition<'_> {
    /// The full object path of the provider.
    pub fn objpath(&self) -> (path: String)
        ensures
            path@ == "/de/swsnr/searchprovider/vscode/"@ + self.relative_obj_path@,
    {
        let mut path = String::from_str("/de/swsnr/searchprovider/vscode/");
        path.append(self.relative_obj_path);
        path
    }
}

/// The providers that this service knows.
///
/// Each has a desktop id and an object path of its own, so that the service
/// always launches the application that belongs to the provider asked.
pub fn providers() -> (list: Vec<ProviderDefinition<'static>>)
    ensures
        list@.len() == 2,
        list@[0].label@ == "Code OSS (Arch Linux)"@,
        list@[0].desktop_id@ == "code-oss.desktop"@,
        list@[0].relative_obj_path@ == "arch/codeoss"@,
        list@[0].config.dirname@ == "Code - OSS"@,
        list@[1].label@ == "Visual Studio Code"@,
        list@[1].desktop_id@ == "visual-studio-code.desktop"@,
        list@[1].relative_obj_path@ == "aur/visualstudiocode"@,
        list@[1].config.dirname@ == "Code"@,
        list@[0].desktop_id@ != list@[1].desktop_id@,
        list@[0].relative_obj_path@ != list@[1].relative_obj_path@,
{
    let mut list: Vec<ProviderDefinition<'static>> = Vec::new();
    list.push(
        ProviderDefinition {
            label: "Code OSS (Arch Linux)",
            desktop_id: "code-oss.desktop",
            relative_obj_path: "arch/codeoss",
            config: ConfigLocation { dirname: "Code - OSS" },
        },
    );
    list.push(
        ProviderDefinition {
            label: "Visual Studio Code",
            desktop_id: "visual-studio-code.desktop",
            relative_obj_path: "aur/visualstudiocode",
            config: ConfigLocation { dirname: "Code" },
        },
    );
    proof {
        reveal_strlit("code-oss.desktop");
        reveal_strlit("visual-studio-code.desktop");
        reveal_strlit("arch/codeoss");
        reveal_strlit("aur/visualstudiocode");
        assert("code-oss.desktop"@.len() != "visual-studio-code.desktop"@.len());
        assert("arch/codeoss"@.len() != "aur/visualstudiocode"@.len());
    }
    list
}

} // verus!
