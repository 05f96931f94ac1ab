//! The management window's own logic: what it registers to start at logon,
//! how it finds the uninstaller, and how it reads the service's state.

pub mod inicializacao;
pub mod servico;
