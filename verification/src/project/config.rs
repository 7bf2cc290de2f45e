use vstd::prelude::*;

verus! {

/// Settings for the git-backed release flow.
#[derive(Clone, Debug)]
pub struct GitConfig {
    pub force_sign: bool,
    pub tag_template: String,
}

/// The default tag template: the released version itself.
pub fn default_tag_template() -> (r: String)
    ensures
        r@ == "{{version}}"@,
{
    "{{version}}".to_owned()
}

impl Default for GitConfig {
    /// Unsigned commits and the default tag template.
    fn default() -> (r: GitConfig)
        ensures
            r.force_sign == false,
            r.tag_template@ == "{{version}}"@,
    {
        GitConfig { force_sign: false, tag_template: default_tag_template() }
    }
}

/// Which version-control software manages the project.
#[derive(Clone, Debug)]
pub enum VcsConfig {
    Git(GitConfig),
}

/// The version-control configuration used when none is given.
pub fn default_vcs_config() -> (r: VcsConfig)
    ensures
        r matches VcsConfig::Git(g) && g.force_sign == false && g.tag_template@ == "{{version}}"@,
{
    VcsConfig::Git(GitConfig::default())
}

/// Whether a module is the main module when the configuration does not say.
pub fn default_main() -> (r: bool)
    ensures
        r == false,
{
    false
}

/// The package manager a module is built with.
#[derive(Clone, Copy, Debug, PartialEq, Eq, Structural)]
pub enum PackageManager {
    Cargo,
    Npm,
    Maven,
}

/// The manifest file name each package manager edits.
pub open spec fn spec_manifest_file(pm: PackageManager) -> Seq<char> {
    match pm {
        PackageManager::Cargo => "Cargo.toml"@,
        PackageManager::Npm => "package.json"@,
        PackageManager::Maven => "pom.xml"@,
    }
}

impl PackageManager {
    /// Decides which package manager a directory uses from which manifest
    /// files are present, preferring Cargo, then Maven, then npm.
    pub fn detect(has_cargo_toml: bool, has_pom_xml: bool, has_package_json: bool) -> (r: Option<
        PackageManager,
    >)
        ensures
            r == if has_cargo_toml {
                Some(PackageManager::Cargo)
            } else if has_pom_xml {
                Some(PackageManager::Maven)
            } else if has_package_json {
                Some(PackageManager::Npm)
            } else {
                None::<PackageManager>
            },
    {
        if has_cargo_toml {
            Some(PackageManager::Cargo)
        } else if has_pom_xml {
            Some(PackageManager::Maven)
        } else if has_package_json {
            Some(PackageManager::Npm)
        } else {
            None
        }
    }

    /// The manifest file this package manager edits.
    pub fn manifest_file(&self) -> (r: String)
        ensures
            r@ == spec_manifest_file(*self),
    {
        match self {
            PackageManager::Cargo => "Cargo.toml".to_owned(),
            PackageManager::Npm => "package.json".to_owned(),
            PackageManager::Maven => "pom.xml".to_owned(),
        }
    }
}

/// Commands to run after a release, by hook name in execution order.
#[derive(Clone, Debug)]
pub struct ProjectHooks {
    pub after_rel: Vec<(String, Vec<String>)>,
}

impl Default for ProjectHooks {
    fn default() -> (r: ProjectHooks)
        ensures
            r.after_rel@.len() == 0,
    {
        ProjectHooks { after_rel: Vec::new() }
    }
}

/// One configured module: where it lives, whether it is the main module,
/// which package manager builds it, and its hooks.
#[derive(Clone, Debug)]
pub struct ProjectModule {
    pub path: String,
    pub main: bool,
    pub package_manager: PackageManager,
    pub hooks: ProjectHooks,
}

/// The whole project configuration: the version-control settings and the
/// configured modules by name.
pub struct PanProjectConfig {
    vcs: VcsConfig,
    modules: Vec<(String, ProjectModule)>,
}

impl PanProjectConfig {
    /// The version-control settings, as specification-level data.
    pub closed spec fn spec_vcs(&self) -> VcsConfig {
        self.vcs
    }

    /// The configured modules, as specification-level data.
    pub closed spec fn spec_modules(&self) -> Seq<(String, ProjectModule)> {
        self.modules@
    }

    /// Assembles a configuration.
    pub fn new(vcs: VcsConfig, modules: Vec<(String, ProjectModule)>) -> (r: PanProjectConfig)
        ensures
            r.spec_vcs() == vcs,
            r.spec_modules() == modules@,
    {
        PanProjectConfig { vcs, modules }
    }

    /// The version-control settings.
    pub fn vcs(&self) -> (r: &VcsConfig)
        ensures
            *r == self.spec_vcs(),
    {
        &self.vcs
    }

    /// The configured modules, by name.
    pub fn modules(&self) -> (r: &Vec<(String, ProjectModule)>)
        ensures
            r@ == self.spec_modules(),
    {
        &self.modules
    }

    /// A configured module is valid only when the manifest file its package
    /// manager needs is present at the module's path.  The error names the
    /// module and the missing file.
    pub fn validate_module(mod_name: &str, module_conf: &ProjectModule, manifest_present: bool)
        -> (r: Result<(), String>)
        ensures
            r is Ok <==> manifest_present,
            r matches Err(e) ==> e@ == "Error during "@ + mod_name@ + " module validation. "@
                + module_conf.path@ + "/"@ + spec_manifest_file(module_conf.package_manager)
                + " is not a valid file"@,
    {
        if manifest_present {
            Ok(())
        } else {
            let mut m = "Error during ".to_owned();
            m.append(mod_name);
            m.append(" module validation. ");
            m.append(module_conf.path.as_str());
            m.append("/");
            let mf = module_conf.package_manager.manifest_file();
            m.append(mf.as_str());
            m.append(" is not a valid file");
            Err(m)
        }
    }

    /// Picks the module a release takes the current version from: the only
    /// module when there is exactly one, otherwise the single module marked
    /// as main.  The result is the module's index.
    pub fn extract_master_mod(&self) -> (r: Result<Option<usize>, String>)
        ensures
            match r {
                Ok(idx) => match idx {
                    Some(i) => (self.spec_modules().len() == 1 && i == 0) || (
                    self.spec_modules().len() > 1 && 0 <= i < self.spec_modules().len()
                        && self.spec_modules()[i as int].1.main && forall|j: int|
                        0 <= j < self.spec_modules().len() && j != i
                            ==> !(#[trigger] self.spec_modules()[j]).1.main),
                    None => self.spec_modules().len() == 0,
                },
                Err(e) => self.spec_modules().len() > 1 && ((e@ == "No module marked as main"@
                    && forall|j: int|
                    0 <= j < self.spec_modules().len() ==> !(#[trigger] self.spec_modules()[j]).1.main)
                    || (e@ == "Only one module must be marked as main"@ && exists|p: int, q: int|
                    0 <= p < q < self.spec_modules().len() && (#[trigger] self.spec_modules()[p]).1.main
                        && (#[trigger] self.spec_modules()[q]).1.main)),
            },
    {
        let m = self.modules.len();
        if m == 0 {
            return Ok(None);
        }
        if m == 1 {
            return Ok(Some(0));
        }
        let mut first: usize = m;
        let mut p: usize = 0;
        while p < m
            invariant
                0 <= p <= m,
                m == self.spec_modules().len(),
                first == m || (first < p && self.spec_modules()[first as int].1.main),
                first == m ==> forall|j: int|
                    0 <= j < p ==> !(#[trigger] self.spec_modules()[j]).1.main,
                first < m ==> forall|j: int|
                    0 <= j < p && j != first ==> !(#[trigger] self.spec_modules()[j]).1.main,
            ensures
                p == m || (first < m && self.spec_modules()[first as int].1.main && exists|q: int|
                    first < q < m && (#[trigger] self.spec_modules()[q]).1.main),
                p == m ==> (first == m ==> forall|j: int|
                    0 <= j < m ==> !(#[trigger] self.spec_modules()[j]).1.main),
                p == m ==> (first < m ==> self.spec_modules()[first as int].1.main && forall|
                    j: int,
                |
                    0 <= j < m && j != first ==> !(#[trigger] self.spec_modules()[j]).1.main),
            decreases m - p,
        {
            if self.modules[p].1.main {
                if first < m {
                    assert(self.spec_modules()[p as int].1.main);
                    break ;
                }
                first = p;
            }
            p = p + 1;
        }
        if p < m {
            Err("Only one module must be marked as main".to_owned())
        } else if first == m {
            Err("No module marked as main".to_owned())
        } else {
            Ok(Some(first))
        }
    }
}

} // verus!
