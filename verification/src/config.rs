//! What the proxy reports about a server when it is queried.

use vstd::prelude::*;

use crate::ip::{IpAddr, IpAddrView};

verus! {

/// The answer to a query.
#[derive(Debug)]
pub struct ProxyQueryConfig {
    pub motd: String,
    pub game_type: String,
    pub map: String,
    pub num_players: u64,
    pub max_players: u64,
    pub host_port: u16,
    pub host_ip: IpAddr,
    pub version: String,
    pub plugins: Option<String>,
    pub players: Vec<String>,
}

/// A [`ProxyQueryConfig`] over texts.
#[verifier::ext_equal]
pub struct ProxyQueryConfigView {
    pub motd: Seq<char>,
    pub game_type: Seq<char>,
    pub map: Seq<char>,
    pub num_players: u64,
    pub max_players: u64,
    pub host_port: u16,
    pub host_ip: IpAddrView,
    pub version: Seq<char>,
    pub plugins: Option<Seq<char>>,
    pub players: Seq<Seq<char>>,
}

/// The texts of strings.
pub open spec fn texts(s: Seq<String>) -> Seq<Seq<char>> {
    s.map_values(|t: String| t@)
}

/// The text of a string, where there is one.
pub open spec fn text_option(s: Option<String>) -> Option<Seq<char>> {
    match s {
        Some(t) => Some(t@),
        None => None,
    }
}

impl View for ProxyQueryConfig {
    type V = ProxyQueryConfigView;

    open spec fn view(&self) -> ProxyQueryConfigView {
        ProxyQueryConfigView {
            motd: self.motd@,
            game_type: self.game_type@,
            map: self.map@,
            num_players: self.num_players,
            max_players: self.max_players,
            host_port: self.host_port,
            host_ip: self.host_ip@,
            version: self.version@,
            plugins: text_option(self.plugins),
            players: texts(self.players@),
        }
    }
}

/// Copies strings.
pub fn clone_strings(s: &Vec<String>) -> (res: Vec<String>)
    ensures
        texts(res@) == texts(s@),
{
    let mut res: Vec<String> = Vec::new();
    let mut i: usize = 0;
    while i < s.len()
        invariant
            i <= s@.len(),
            texts(res@) == texts(s@).take(i as int),
        decreases s@.len() - i,
    {
        let ghost before = res@;
        res.push(s[i].clone());
        assert(texts(res@) =~= texts(before).push(s@[i as int]@));
        i = i + 1;
        assert(texts(res@) =~= texts(s@).take(i as int));
    }
    assert(texts(s@).take(s@.len() as int) =~= texts(s@));
    res
}

impl Clone for ProxyQueryConfig {
    fn clone(&self) -> (res: Self)
        ensures
            res@ == self@,
    {
        let plugins: Option<String> = match &self.plugins {
            Some(p) => Some(p.clone()),
            None => None,
        };
        ProxyQueryConfig {
            motd: self.motd.clone(),
            game_type: self.game_type.clone(),
            map: self.map.clone(),
            num_players: self.num_players,
            max_players: self.max_players,
            host_port: self.host_port,
            host_ip: self.host_ip,
            version: self.version.clone(),
            plugins,
            players: clone_strings(&self.players),
        }
    }
}

} // verus!
