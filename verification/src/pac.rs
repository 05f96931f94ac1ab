//! The proxy auto-configuration file: only Discord's traffic is handed to the
//! local proxy; the rest of the internet never passes through it.

use vstd::prelude::*;

use crate::texto::{anexar_str, decimal, escrever_decimal, texto_de};

verus! {

/// The text before the port.
pub open spec fn inicio_pac() -> Seq<char> {
    "function FindProxyForURL(url, host) {\n  if (dnsDomainIs(host, \".discord.com\")      || host == \"discord.com\"      ||\n      dnsDomainIs(host, \".discord.gg\")       || host == \"discord.gg\"       ||\n      dnsDomainIs(host, \".discord.media\")    ||\n      dnsDomainIs(host, \".discordapp.com\")   || host == \"discordapp.com\")\n    return \"SOCKS5 127.0.0.1:"@
}

/// The text after the port.
pub open spec fn fim_pac() -> Seq<char> {
    "\";\n  return \"DIRECT\";\n}\n"@
}

/// The PAC script that sends Discord's domains to the SOCKS5 proxy on
/// `127.0.0.1:porta_socks` and everything else direct.
pub fn texto(porta_socks: u16) -> (r: String)
    ensures
        r@ == inicio_pac() + decimal(porta_socks as nat) + fim_pac(),
{
    let mut v: Vec<char> = Vec::new();
    anexar_str(&mut v, "function FindProxyForURL(url, host) {\n  if (dnsDomainIs(host, \".discord.com\")      || host == \"discord.com\"      ||\n      dnsDomainIs(host, \".discord.gg\")       || host == \"discord.gg\"       ||\n      dnsDomainIs(host, \".discord.media\")    ||\n      dnsDomainIs(host, \".discordapp.com\")   || host == \"discordapp.com\")\n    return \"SOCKS5 127.0.0.1:");
    escrever_decimal(porta_socks as u64, &mut v);
    anexar_str(&mut v, "\";\n  return \"DIRECT\";\n}\n");
    assert(v@ =~= inicio_pac() + decimal(porta_socks as nat) + fim_pac());
    texto_de(&v)
}

} // verus!
