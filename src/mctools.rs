//! The Minecraft server card: what the status API reports, and the text
//! that fills the card's SVG template.
use vstd::prelude::*;

use crate::text::{
    byte_len, decimal, join, join_spec, replace, replace_spec, trim, trim_spec, truncate_tail,
    truncate_tail_spec, u128_to_string, views,
};

verus! {

/// The values shown on a server card.
#[derive(Debug)]
pub struct Template {
    pub the_server_ip: String,
    pub the_server_port: String,
    pub online: String,
    pub game_version: String,
    pub protocol_version: String,
    pub server_type: String,
    pub info: String,
    pub image_url: Option<String>,
}

/// A server's status, as the status API reports it.
#[derive(Debug)]
pub struct ApiInfo {
    pub ip: String,
    pub port: u16,
    pub version: String,
    pub protocol: Option<ApiInfoProtocol>,
    pub icon: Option<String>,
    pub software: Option<String>,
    pub motd: ApiInfoMotd,
    pub players: ApiInfoPlayers,
}

#[derive(Debug)]
pub struct ApiInfoProtocol {
    pub version: u16,
}

#[derive(Debug)]
pub struct ApiInfoMotd {
    pub clean: Vec<String>,
}

#[derive(Debug)]
pub struct ApiInfoPlayers {
    pub online: u32,
    pub max: u32,
}

/// The card values for a server status.
pub open spec fn template_of(a: ApiInfo) -> (Seq<char>, Seq<char>, Seq<char>, Seq<char>, Seq<char>, Seq<char>, Seq<char>) {
    (
        a.ip@,
        decimal(a.port as nat),
        decimal(a.players.online as nat) + "/"@ + decimal(a.players.max as nat),
        a.version@,
        match a.protocol {
            Some(p) => decimal(p.version as nat),
            None => "未知"@,
        },
        match a.software {
            Some(s) => s@,
            None => "不知道喵"@,
        },
        join_spec(views(a.motd.clean@), ";"@),
    )
}

impl Template {
    /// The card values for a server status; the icon, if any, is the image.
    pub fn from_api(a: ApiInfo) -> (r: Template)
        ensures
            (r.the_server_ip@, r.the_server_port@, r.online@, r.game_version@, r.protocol_version@,
            r.server_type@, r.info@) == template_of(a),
            r.image_url == a.icon,
    {
        let ghost g = a;
        let ApiInfo { ip, port, version, protocol, icon, software, motd, players } = a;
        let protocol_version = match protocol {
            Some(p) => u128_to_string(p.version as u128),
            None => "未知".to_owned(),
        };
        let server_type = match software {
            Some(s) => s,
            None => "不知道喵".to_owned(),
        };
        let mut online = u128_to_string(players.online as u128);
        online.append("/");
        online.append(u128_to_string(players.max as u128).as_str());
        Template {
            the_server_ip: ip,
            the_server_port: u128_to_string(port as u128),
            online,
            game_version: version,
            protocol_version,
            server_type,
            info: join(&motd.clean, ";"),
            image_url: icon,
        }
    }
}

/// The card's SVG: each placeholder of `svg` replaced by its value, the info
/// line trimmed and shortened to twenty, and the server icon shown when
/// there is one, else the default icon.
pub open spec fn apply_spec(t: Template, svg: Seq<char>) -> Seq<char> {
    let s = replace_spec(svg, "{{the_server_ip}}"@, t.the_server_ip@);
    let s = replace_spec(s, "{{the_server_port}}"@, t.the_server_port@);
    let s = replace_spec(s, "{{online}}"@, t.online@);
    let s = replace_spec(s, "{{game_version}}"@, t.game_version@);
    let s = replace_spec(s, "{{protocol_version}}"@, t.protocol_version@);
    let s = replace_spec(s, "{{server_type}}"@, t.server_type@);
    let info = trim_spec(t.info@);
    let s = replace_spec(s, "{{info}}"@, truncate_tail_spec(info, byte_len(info), 20));
    match t.image_url {
        Some(u) => {
            let s = replace_spec(s, "{{image_url}}"@, u@);
            let s = replace_spec(s, "{{image_display}}"@, "block"@);
            replace_spec(s, "{{icon_display}}"@, "none"@)
        },
        None => {
            let s = replace_spec(s, "{{image_display}}"@, "none"@);
            replace_spec(s, "{{icon_display}}"@, "inline"@)
        },
    }
}

/// Fills the card template `svg` with the values of `template`.
pub fn apply_template(template: &Template, svg: &str) -> (r: String)
    ensures
        r@ == apply_spec(*template, svg@),
{
    let s = replace(svg, "{{the_server_ip}}", template.the_server_ip.as_str());
    let s = replace(s.as_str(), "{{the_server_port}}", template.the_server_port.as_str());
    let s = replace(s.as_str(), "{{online}}", template.online.as_str());
    let s = replace(s.as_str(), "{{game_version}}", template.game_version.as_str());
    let s = replace(s.as_str(), "{{protocol_version}}", template.protocol_version.as_str());
    let s = replace(s.as_str(), "{{server_type}}", template.server_type.as_str());
    let info = trim(template.info.as_str());
    let short = truncate_tail(info.as_str(), 20);
    let s = replace(s.as_str(), "{{info}}", short.as_str());
    match &template.image_url {
        Some(u) => {
            let s = replace(s.as_str(), "{{image_url}}", u.as_str());
            let s = replace(s.as_str(), "{{image_display}}", "block");
            replace(s.as_str(), "{{icon_display}}", "none")
        },
        None => {
            let s = replace(s.as_str(), "{{image_display}}", "none");
            replace(s.as_str(), "{{icon_display}}", "inline")
        },
    }
}

} // verus!
