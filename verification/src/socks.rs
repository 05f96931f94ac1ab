//! The SOCKS5 conversation: what the local proxy reads from Discord, what it
//! answers, and what it says to a foreign proxy when chaining through it.
//!
//! The sockets are the caller's. Each parser here looks at the bytes read so
//! far and says whether more are needed (and how many in all), or what the
//! message means.

use vstd::prelude::*;
use vstd::utf8::{decode_utf8, encode_utf8, valid_utf8};

use crate::texto::{anexar_str, caracteres, decimal, escrever_decimal, texto_de};

verus! {

#[verifier::external_type_specification]
#[verifier::external_body]
pub struct ExFromUtf8Error(std::string::FromUtf8Error);

/// `String::from_utf8`: the text whose UTF-8 encoding is `vec`, when it is
/// valid UTF-8.
pub assume_specification[ std::string::String::from_utf8 ](vec: Vec<u8>) -> (r: Result<
    String,
    std::string::FromUtf8Error,
>)
    ensures
        r is Ok <==> valid_utf8(vec@),
        r matches Ok(s) ==> s@ == decode_utf8(vec@),
;

/// Text of an IPv6 address in its canonical form, as a function of its 16
/// bytes.
pub uninterp spec fn ipv6_texto(octetos: Seq<u8>) -> Seq<char>;

/// `core::net::Ipv6Addr::from([u8; 16])` followed by its `Display`
/// (`to_string`). Trusted to be a function of the 16 bytes; the form of the
/// text (RFC 5952) is not stated.
#[verifier::external_body]
fn texto_ipv6(octetos: &[u8]) -> (r: String)
    requires
        octetos@.len() == 16,
    ensures
        r@ == ipv6_texto(octetos@),
{
    let mut a = [0u8; 16];
    a.copy_from_slice(octetos);
    core::net::Ipv6Addr::from(a).to_string()
}

/// Why a SOCKS conversation ended.
#[derive(Debug, PartialEq, Eq, Structural)]
pub enum ErroSocks {
    /// The client spoke another SOCKS version.
    VersaoNaoSuportada(u8),
    /// The client asked for something other than CONNECT.
    SoConnect,
    /// The client named an unknown address type.
    TipoDeEnderecoDesconhecido(u8),
    /// The domain name was not UTF-8.
    NomeInvalido,
    /// A destination longer than 255 bytes cannot be asked of an upstream.
    HostLongoDemais,
    /// The upstream refused the method without authentication.
    MetodoRecusado,
    /// The upstream refused the connection, with this code.
    ConexaoRecusada(u8),
    /// The upstream's answer named an unknown address type.
    RespostaIlegivel(u8),
}

/// The server's choice of method: version 5, no authentication.
pub const RESPOSTA_METODO: [u8; 2] = [0x05, 0x00];

/// The client's greeting to an upstream: version 5, one method, none.
pub const SAUDACAO_UPSTREAM: [u8; 3] = [0x05, 0x01, 0x00];

/// The first two bytes of a client's greeting: how many method bytes follow,
/// or the version error.
pub fn saudacao(cab: [u8; 2]) -> (r: Result<usize, ErroSocks>)
    ensures
        cab[0] == 5 ==> r == Ok::<usize, ErroSocks>(cab[1] as usize),
        cab[0] != 5 ==> r == Err::<usize, ErroSocks>(ErroSocks::VersaoNaoSuportada(cab[0])),
{
    if cab[0] != 0x05 {
        return Err(ErroSocks::VersaoNaoSuportada(cab[0]));
    }
    Ok(cab[1] as usize)
}

/// A reply to the client: version 5, the code, and a zero IPv4 address.
pub open spec fn resposta_de(codigo: u8) -> Seq<u8> {
    seq![0x05, codigo, 0x00, 0x01, 0, 0, 0, 0, 0, 0]
}

/// The reply that refuses with `codigo` (7: command not supported, 8:
/// address type not supported).
pub fn recusa(codigo: u8) -> (r: [u8; 10])
    ensures
        r@ == resposta_de(codigo),
{
    let r = [0x05, codigo, 0x00, 0x01, 0, 0, 0, 0, 0, 0];
    assert(r@ =~= resposta_de(codigo));
    r
}

/// The reply that accepts the connection.
pub fn resposta_ok() -> (r: [u8; 10])
    ensures
        r@ == resposta_de(0),
{
    recusa(0)
}

/// What the bytes read so far of a CONNECT request say.
#[derive(Debug, PartialEq, Eq)]
pub enum Pedido {
    /// Read until there are this many bytes in all.
    Falta(usize),
    /// A complete request for `host:porta`.
    Pronto { host: String, porta: u16 },
    /// Answer the client with this refusal code, and end.
    Recusar(u8, ErroSocks),
    /// End without answering.
    Invalido(ErroSocks),
}

/// What a request means, as values.
pub enum PedidoV {
    Falta(nat),
    Pronto(Seq<char>, u16),
    Recusar(u8, ErroSocks),
    Invalido(ErroSocks),
}

pub open spec fn porta_de(alto: u8, baixo: u8) -> u16 {
    (alto as nat * 256 + baixo as nat) as u16
}

/// `a.b.c.d`.
pub open spec fn texto_ipv4(o: Seq<u8>) -> Seq<char> {
    decimal(o[0] as nat) + seq!['.'] + decimal(o[1] as nat) + seq!['.'] + decimal(o[2] as nat)
        + seq!['.'] + decimal(o[3] as nat)
}

/// The meaning of the request bytes `b` read so far.
pub open spec fn pedido_de(b: Seq<u8>) -> PedidoV {
    if b.len() < 4 {
        PedidoV::Falta(4)
    } else if b[1] != 1 {
        PedidoV::Recusar(7, ErroSocks::SoConnect)
    } else if b[3] == 1 {
        if b.len() < 10 {
            PedidoV::Falta(10)
        } else {
            PedidoV::Pronto(texto_ipv4(b.subrange(4, 8)), porta_de(b[8], b[9]))
        }
    } else if b[3] == 3 {
        if b.len() < 5 {
            PedidoV::Falta(5)
        } else {
            let n = b[4] as int;
            if b.len() < 5 + n {
                PedidoV::Falta((5 + n) as nat)
            } else if !valid_utf8(b.subrange(5, 5 + n)) {
                PedidoV::Invalido(ErroSocks::NomeInvalido)
            } else if b.len() < 7 + n {
                PedidoV::Falta((7 + n) as nat)
            } else {
                PedidoV::Pronto(decode_utf8(b.subrange(5, 5 + n)), porta_de(b[5 + n], b[6 + n]))
            }
        }
    } else if b[3] == 4 {
        if b.len() < 22 {
            PedidoV::Falta(22)
        } else {
            PedidoV::Pronto(ipv6_texto(b.subrange(4, 20)), porta_de(b[20], b[21]))
        }
    } else {
        PedidoV::Recusar(8, ErroSocks::TipoDeEnderecoDesconhecido(b[3]))
    }
}

pub open spec fn visao_pedido(p: Pedido) -> PedidoV {
    match p {
        Pedido::Falta(n) => PedidoV::Falta(n as nat),
        Pedido::Pronto { host, porta } => PedidoV::Pronto(host@, porta),
        Pedido::Recusar(c, e) => PedidoV::Recusar(c, e),
        Pedido::Invalido(e) => PedidoV::Invalido(e),
    }
}

fn porta(alto: u8, baixo: u8) -> (r: u16)
    ensures
        r == porta_de(alto, baixo),
{
    (alto as u16) * 256 + (baixo as u16)
}

/// Reads the request that follows the greeting: version, command, reserved
/// byte, address type, address and port. When more bytes are needed, the
/// answer says how many there must be in all, always more than now.
pub fn analisar_pedido(b: &[u8]) -> (r: Pedido)
    ensures
        visao_pedido(r) == pedido_de(b@),
        r matches Pedido::Falta(n) ==> n > b@.len(),
{
    if b.len() < 4 {
        return Pedido::Falta(4);
    }
    if b[1] != 0x01 {
        return Pedido::Recusar(0x07, ErroSocks::SoConnect);
    }
    if b[3] == 0x01 {
        if b.len() < 10 {
            return Pedido::Falta(10);
        }
        let mut v: Vec<char> = Vec::new();
        escrever_decimal(b[4] as u64, &mut v);
        v.push('.');
        escrever_decimal(b[5] as u64, &mut v);
        v.push('.');
        escrever_decimal(b[6] as u64, &mut v);
        v.push('.');
        escrever_decimal(b[7] as u64, &mut v);
        assert(v@ =~= texto_ipv4(b@.subrange(4, 8)));
        return Pedido::Pronto { host: texto_de(&v), porta: porta(b[8], b[9]) };
    }
    if b[3] == 0x03 {
        if b.len() < 5 {
            return Pedido::Falta(5);
        }
        let n = b[4] as usize;
        if b.len() < 5 + n {
            return Pedido::Falta(5 + n);
        }
        let mut d: Vec<u8> = Vec::new();
        let mut i: usize = 5;
        let fim_nome = 5 + n;
        while i < fim_nome
            invariant
                fim_nome == 5 + n,
                5 <= i <= fim_nome <= b@.len(),
                d@ == b@.subrange(5, i as int),
            decreases fim_nome - i,
        {
            d.push(b[i]);
            assert(b@.subrange(5, i + 1) =~= b@.subrange(5, i as int).push(b@[i as int]));
            i = i + 1;
        }
        let host = match String::from_utf8(d) {
            Ok(h) => h,
            Err(_) => {
                return Pedido::Invalido(ErroSocks::NomeInvalido);
            },
        };
        if b.len() < 7 + n {
            return Pedido::Falta(7 + n);
        }
        return Pedido::Pronto { host, porta: porta(b[5 + n], b[6 + n]) };
    }
    if b[3] == 0x04 {
        if b.len() < 22 {
            return Pedido::Falta(22);
        }
        let mut o: Vec<u8> = Vec::new();
        let mut i: usize = 4;
        while i < 20
            invariant
                4 <= i <= 20 <= b@.len(),
                o@ == b@.subrange(4, i as int),
            decreases 20 - i,
        {
            o.push(b[i]);
            assert(b@.subrange(4, i + 1) =~= b@.subrange(4, i as int).push(b@[i as int]));
            i = i + 1;
        }
        return Pedido::Pronto { host: texto_ipv6(&o), porta: porta(b[20], b[21]) };
    }
    Pedido::Recusar(0x08, ErroSocks::TipoDeEnderecoDesconhecido(b[3]))
}

// ---------------------------------------------------------------------------
// Chaining through an upstream
// ---------------------------------------------------------------------------

/// The upstream accepted the method without authentication.
pub fn metodo_aceito(resp: [u8; 2]) -> (r: bool)
    ensures
        r == (resp[0] == 5 && resp[1] == 0),
{
    resp[0] == 0x05 && resp[1] == 0x00
}

/// The CONNECT request for `host:porta` by domain name: version 5, CONNECT,
/// reserved, type 3, the length, the name's bytes, the port big-endian.
pub open spec fn pedido_connect_de(host: Seq<u8>, porta: u16) -> Seq<u8> {
    seq![0x05u8, 0x01, 0x00, 0x03, host.len() as u8] + host + seq![
        (porta / 256) as u8,
        (porta % 256) as u8,
    ]
}

/// The request sent to an upstream, or the refusal for a name that does not
/// fit in one length byte.
pub fn pedido_connect(host: &str, porta: u16) -> (r: Result<Vec<u8>, ErroSocks>)
    ensures
        encode_utf8(host@).len() <= 255 ==> (r matches Ok(v) && v@ == pedido_connect_de(
            encode_utf8(host@),
            porta,
        )),
        encode_utf8(host@).len() > 255 ==> r == Err::<Vec<u8>, ErroSocks>(ErroSocks::HostLongoDemais),
{
    let h = host.as_bytes();
    if h.len() > 255 {
        return Err(ErroSocks::HostLongoDemais);
    }
    let mut pedido: Vec<u8> = Vec::new();
    pedido.push(0x05);
    pedido.push(0x01);
    pedido.push(0x00);
    pedido.push(0x03);
    pedido.push(h.len() as u8);
    let mut i: usize = 0;
    while i < h.len()
        invariant
            i <= h@.len(),
            pedido@ == seq![0x05u8, 0x01, 0x00, 0x03, h@.len() as u8] + h@.subrange(0, i as int),
        decreases h@.len() - i,
    {
        pedido.push(h[i]);
        assert(h@.subrange(0, i + 1) =~= h@.subrange(0, i as int).push(h@[i as int]));
        i = i + 1;
    }
    pedido.push((porta / 256) as u8);
    pedido.push((porta % 256) as u8);
    assert(h@.subrange(0, h@.len() as int) =~= h@);
    assert(pedido@ =~= pedido_connect_de(h@, porta));
    Ok(pedido)
}

/// What the bytes read so far of an upstream's reply to CONNECT say.
#[derive(Debug, PartialEq, Eq, Structural)]
pub enum Resposta {
    /// Read until there are this many bytes in all.
    Falta(usize),
    /// The connection is up and the whole reply was read.
    Aceita,
    /// The upstream refused, or answered what cannot be read.
    Falhou(ErroSocks),
}

/// The meaning of the reply bytes `b` read so far: a four-byte header, the
/// bound address (which is read and ignored), and the port.
pub open spec fn resposta_upstream(b: Seq<u8>) -> Resposta {
    if b.len() < 4 {
        Resposta::Falta(4)
    } else if b[1] != 0 {
        Resposta::Falhou(ErroSocks::ConexaoRecusada(b[1]))
    } else {
        let fim: int = if b[3] == 1 {
            10
        } else if b[3] == 4 {
            22
        } else if b[3] == 3 {
            if b.len() < 5 {
                -1
            } else {
                7 + b[4] as int
            }
        } else {
            -2
        };
        if fim == -2 {
            Resposta::Falhou(ErroSocks::RespostaIlegivel(b[3]))
        } else if fim == -1 {
            Resposta::Falta(5)
        } else if b.len() < fim {
            Resposta::Falta(fim as usize)
        } else {
            Resposta::Aceita
        }
    }
}

/// Reads an upstream's reply to CONNECT. When more bytes are needed, the
/// answer says how many there must be in all, always more than now.
pub fn analisar_resposta(b: &[u8]) -> (r: Resposta)
    ensures
        r == resposta_upstream(b@),
        r matches Resposta::Falta(n) ==> n > b@.len(),
{
    if b.len() < 4 {
        return Resposta::Falta(4);
    }
    if b[1] != 0x00 {
        return Resposta::Falhou(ErroSocks::ConexaoRecusada(b[1]));
    }
    let fim: usize = if b[3] == 0x01 {
        10
    } else if b[3] == 0x04 {
        22
    } else if b[3] == 0x03 {
        if b.len() < 5 {
            return Resposta::Falta(5);
        }
        7 + b[4] as usize
    } else {
        return Resposta::Falhou(ErroSocks::RespostaIlegivel(b[3]));
    };
    if b.len() < fim {
        Resposta::Falta(fim)
    } else {
        Resposta::Aceita
    }
}

// ---------------------------------------------------------------------------
// Laws
// ---------------------------------------------------------------------------

/// What the chaining sends an upstream, the local server reads back: the
/// same host, the same port.
pub proof fn lei_pedido_ida_e_volta(host: Seq<char>, porta: u16)
    requires
        encode_utf8(host).len() <= 255,
    ensures
        pedido_de(pedido_connect_de(encode_utf8(host), porta)) == PedidoV::Pronto(host, porta),
{
    let h = encode_utf8(host);
    let b = pedido_connect_de(h, porta);
    let n = h.len() as int;
    assert(b[4] as int == n);
    assert(b.subrange(5, 5 + n) =~= h);
    vstd::utf8::encode_utf8_valid_utf8(host);
    vstd::utf8::encode_utf8_decode_utf8(host);
    assert(b[5 + n] == (porta / 256) as u8);
    assert(b[6 + n] == (porta % 256) as u8);
    assert(porta_de((porta / 256) as u8, (porta % 256) as u8) == porta);
}


// ---------------------------------------------------------------------------
// The log line of a route
// ---------------------------------------------------------------------------

/// How the log marks a connection that went out through a foreign proxy.
pub const PREFIXO_EXTERIOR: &'static str = "exterior  ";

/// How the log marks a connection that went direct.
pub const PREFIXO_DIRETO: &'static str = "direto    ";

pub open spec fn linha_rota_de(exterior: bool, host: Seq<char>, porta: u16) -> Seq<char> {
    (if exterior {
        PREFIXO_EXTERIOR@
    } else {
        PREFIXO_DIRETO@
    }) + host + ":"@ + decimal(porta as nat)
}

/// The line the log gets for each route taken: the route, then
/// `host:port`.
pub fn linha_rota(exterior: bool, host: &str, porta: u16) -> (r: String)
    ensures
        r@ == linha_rota_de(exterior, host@, porta),
{
    let mut v = if exterior {
        caracteres(PREFIXO_EXTERIOR)
    } else {
        caracteres(PREFIXO_DIRETO)
    };
    anexar_str(&mut v, host);
    anexar_str(&mut v, ":");
    escrever_decimal(porta as u64, &mut v);
    texto_de(&v)
}

} // verus!
