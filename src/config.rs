use vstd::prelude::*;

verus! {

/// A configuration value.
#[derive(Debug)]
pub enum ConfigValue {
    Bool(bool),
    Int(i64),
    Str(String),
    Other,
}

/// The value of one option of one rule.
pub struct ConfigEntry {
    pub cop: String,
    pub option: String,
    pub value: ConfigValue,
}

/// A configuration tree, keyed by rule name then option name. Where a key
/// occurs twice, the first entry counts.
pub struct ConfigTree {
    pub entries: Vec<ConfigEntry>,
}

/// The value of `option` of `cop` among `entries[i..]`.
pub open spec fn lookup(entries: Seq<ConfigEntry>, cop: Seq<char>, option: Seq<char>, i: int) -> Option<ConfigValue>
    decreases entries.len() - i,
{
    if i < 0 || i >= entries.len() {
        None
    } else if entries[i].cop@ == cop && entries[i].option@ == option {
        Some(entries[i].value)
    } else {
        lookup(entries, cop, option, i + 1)
    }
}

/// The value of `option` of `cop` in `config`: the override if there is one,
/// else the built-in default, else none.
pub open spec fn resolve(config: Config, cop: Seq<char>, option: Seq<char>) -> Option<ConfigValue> {
    let over = match config.overrides {
        Some(t) => lookup(t.entries@, cop, option, 0),
        None => None,
    };
    if over is Some {
        over
    } else {
        lookup(config.defaults.entries@, cop, option, 0)
    }
}

/// Whether `option` of `cop` is set to true; a missing or non-boolean value is false.
pub open spec fn flag(config: Config, cop: Seq<char>, option: Seq<char>) -> bool {
    resolve(config, cop, option) matches Some(ConfigValue::Bool(true))
}

/// Whether the rule named `cop` is enabled.
pub open spec fn enabled(config: Config, cop: Seq<char>) -> bool {
    flag(config, cop, "Enabled"@)
}

impl ConfigTree {
    pub fn new() -> (r: ConfigTree)
        ensures
            r.entries@.len() == 0,
    {
        ConfigTree { entries: Vec::new() }
    }

    /// Adds a value for `option` of `cop`; an earlier value for the same key stays in force.
    pub fn insert(&mut self, cop: String, option: String, value: ConfigValue)
        ensures
            final(self).entries@ == old(self).entries@.push(ConfigEntry { cop, option, value }),
    {
        self.entries.push(ConfigEntry { cop, option, value });
    }

    fn lookup(&self, cop: &String, option: &String) -> (r: Option<&ConfigValue>)
        ensures
            match r {
                Some(v) => lookup(self.entries@, cop@, option@, 0) == Some(*v),
                None => lookup(self.entries@, cop@, option@, 0) is None,
            },
    {
        let mut i: usize = 0;
        while i < self.entries.len()
            invariant
                i <= self.entries@.len(),
                lookup(self.entries@, cop@, option@, 0) == lookup(self.entries@, cop@, option@, i as int),
            decreases self.entries.len() - i,
        {
            let e = &self.entries[i];
            if e.cop.eq(cop) && e.option.eq(option) {
                return Some(&e.value);
            }
            i = i + 1;
        }
        None
    }
}

/// The configuration of one run: optional overrides over built-in defaults.
pub struct Config {
    pub overrides: Option<ConfigTree>,
    pub defaults: ConfigTree,
}

impl Config {
    pub fn new(overrides: Option<ConfigTree>, defaults: ConfigTree) -> (r: Config)
        ensures
            r == (Config { overrides, defaults }),
    {
        Config { overrides, defaults }
    }

    /// The value of `option` of `cop`.
    pub fn get(&self, cop: &String, option: &String) -> (r: Option<&ConfigValue>)
        ensures
            match r {
                Some(v) => resolve(*self, cop@, option@) == Some(*v),
                None => resolve(*self, cop@, option@) is None,
            },
    {
        if let Some(t) = &self.overrides {
            let v = t.lookup(cop, option);
            if v.is_some() {
                return v;
            }
        }
        self.defaults.lookup(cop, option)
    }

    /// Whether `option` of `cop` is set to true.
    pub fn flag(&self, cop: &String, option: &String) -> (r: bool)
        ensures
            r == flag(*self, cop@, option@),
    {
        match self.get(cop, option) {
            Some(ConfigValue::Bool(b)) => *b,
            _ => false,
        }
    }

    /// Whether the rule named `cop` is enabled.
    pub fn is_cop_enabled(&self, cop: &String) -> (r: bool)
        ensures
            r == enabled(*self, cop@),
    {
        let option = "Enabled".to_owned();
        proof {
            reveal_strlit("Enabled");
        }
        self.flag(cop, &option)
    }

    /// The options of the rule named `cop`.
    pub fn for_cop<'a>(&'a self, cop: &String) -> (r: CopConfig<'a>)
        ensures
            *r.config == *self,
            r.cop@ == cop@,
    {
        CopConfig { config: self, cop: cop.clone() }
    }

    /// The options that apply to all rules.
    pub fn for_all_cops<'a>(&'a self) -> (r: CopConfig<'a>)
        ensures
            *r.config == *self,
            r.cop@ == "AllCops"@,
    {
        CopConfig { config: self, cop: "AllCops".to_owned() }
    }

    /// Whether the rules may assume the ActiveSupport extensions.
    pub fn is_active_support_extensions_enabled(&self) -> (r: bool)
        ensures
            r == flag(*self, "AllCops"@, "ActiveSupportExtensionsEnabled"@),
    {
        let cop = "AllCops".to_owned();
        let option = "ActiveSupportExtensionsEnabled".to_owned();
        self.flag(&cop, &option)
    }
}

/// The options of one rule, or of all rules, in a configuration.
pub struct CopConfig<'a> {
    pub config: &'a Config,
    pub cop: String,
}

impl<'a> CopConfig<'a> {
    /// The value of `option`: the override if there is one, else the default.
    pub fn get(&self, option: &String) -> (r: Option<&'a ConfigValue>)
        ensures
            match r {
                Some(v) => resolve(*self.config, self.cop@, option@) == Some(*v),
                None => resolve(*self.config, self.cop@, option@) is None,
            },
    {
        self.config.get(&self.cop, option)
    }
}

} // verus!
