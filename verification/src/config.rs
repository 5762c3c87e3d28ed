//! The tool's own configuration: where the game lives and which locale to
//! show names in.

use vstd::prelude::*;

verus! {

/// Where the game data lives and which locale to use.
pub struct Config {
    game_root_dir: String,
    locale: String,
}

impl Config {
    /// The configured game root.
    pub closed spec fn spec_root(&self) -> Seq<char> {
        self.game_root_dir@
    }

    /// The configured locale.
    pub closed spec fn spec_locale(&self) -> Seq<char> {
        self.locale@
    }

    /// A configuration from its two paths.
    pub fn new(game_root_dir: String, locale: String) -> (r: Config)
        ensures
            r.spec_root() == game_root_dir@,
            r.spec_locale() == locale@,
    {
        Config { game_root_dir, locale }
    }

    /// The base mod's locale file under the configured root and locale.
    pub fn base_mod_locale_path(&self) -> (r: String)
        ensures
            r@ == self.spec_root() + "/data/base/locale/"@ + self.spec_locale() + "/base.cfg"@,
    {
        proof {
            reveal_strlit("/data/base/locale/");
            reveal_strlit("/base.cfg");
        }
        let mut out = self.game_root_dir.clone();
        out.append("/data/base/locale/");
        out.append(self.locale.as_str());
        out.append("/base.cfg");
        out
    }
}

} // verus!
