//! omnimodem-dsp: the integer logic of a multi-mode amateur-radio modem —
//! mode parameter grids and labels, channel codes and tone maps, framing and
//! header protocols, the Mode S parity and address checks, the FSQ directed
//! protocol, the MT63 encoder and phase accumulation, and the RSID matcher —
//! each with its contract proved.
pub mod text;
pub mod mode;
pub mod resample;
pub mod adsb;
pub mod fsq;
pub mod ifk33;
pub mod dominoex;
pub mod ifkp;
pub mod navtex;
pub mod mfsk;
pub mod ofdm;
pub mod modulate;
pub mod osc;
pub mod mt63;
pub mod hell;
pub mod jt4;
pub mod js8;
pub mod msk144;
pub mod fst4;
pub mod jt65;
pub mod rsid;
pub mod sdr_demod;
pub mod spectrum;
pub mod contestia;
pub mod olivia;
pub mod fsq_pic;
pub mod ifkp_pic;
pub mod mfsk_pic;
pub mod afsk1200;
pub mod ft4;
