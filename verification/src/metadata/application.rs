//! Application blocks: data of a registered application.

use crate::bits::be_bytes;
use crate::metadata::write_be;
use crate::ByteSink;
use vstd::prelude::*;

verus! {

/// The registered applications, and `Other` for any other identifier.
#[derive(Clone, Copy)]
pub enum AppId {
    FlacFile,
    BeSolo,
    BugsPlayer,
    GoldWaveCuePoints,
    CueSplitter,
    FacTools,
    MotbMetaCzar,
    Mp3StreamEditor,
    MusicMlMusicMetadataLanguage,
    SoundDevicesRiffChunkStorage,
    SoundFontFlac,
    SonyCreativeSoftware,
    Facsqueeze,
    TwistedWave,
    UitsEmbeddingTools,
    FlacAiffChunkStorage,
    FacImage,
    ParseableEmbeddedExtensibleMetadata,
    QflacStudio,
    FlacRiffChunkStorage,
    TagTuner,
    FlacWave64ChunkStorage,
    XBAT,
    Xmcd,
    Other(u32),
}

impl AppId {
    /// The 32-bit identifier.
    pub open spec fn code(self) -> u32 {
        match self {
            AppId::FlacFile => 0x4154_4348,
            AppId::BeSolo => 0x4253_4F4C,
            AppId::BugsPlayer => 0x4255_4753,
            AppId::GoldWaveCuePoints => 0x4375_6573,
            AppId::CueSplitter => 0x4669_6361,
            AppId::FacTools => 0x4674_6F6C,
            AppId::MotbMetaCzar => 0x4D4F_5442,
            AppId::Mp3StreamEditor => 0x4D50_5345,
            AppId::MusicMlMusicMetadataLanguage => 0x4D75_4D4C,
            AppId::SoundDevicesRiffChunkStorage => 0x5249_4646,
            AppId::SoundFontFlac => 0x5346_464C,
            AppId::SonyCreativeSoftware => 0x534F_4E59,
            AppId::Facsqueeze => 0x5351_455A,
            AppId::TwistedWave => 0x5474_5776,
            AppId::UitsEmbeddingTools => 0x5549_5453,
            AppId::FlacAiffChunkStorage => 0x6169_6666,
            AppId::FacImage => 0x696D_6167,
            AppId::ParseableEmbeddedExtensibleMetadata => 0x7065_656D,
            AppId::QflacStudio => 0x7166_7374,
            AppId::FlacRiffChunkStorage => 0x7269_6666,
            AppId::TagTuner => 0x7475_6E65,
            AppId::FlacWave64ChunkStorage => 0x7736_3420,
            AppId::XBAT => 0x7862_6174,
            AppId::Xmcd => 0x786D_6364,
            AppId::Other(n) => n,
        }
    }

    /// The 32-bit identifier.
    pub fn id(&self) -> (id: u32)
        ensures
            id == self.code(),
    {
        match self {
            AppId::FlacFile => 0x4154_4348,
            AppId::BeSolo => 0x4253_4F4C,
            AppId::BugsPlayer => 0x4255_4753,
            AppId::GoldWaveCuePoints => 0x4375_6573,
            AppId::CueSplitter => 0x4669_6361,
            AppId::FacTools => 0x4674_6F6C,
            AppId::MotbMetaCzar => 0x4D4F_5442,
            AppId::Mp3StreamEditor => 0x4D50_5345,
            AppId::MusicMlMusicMetadataLanguage => 0x4D75_4D4C,
            AppId::SoundDevicesRiffChunkStorage => 0x5249_4646,
            AppId::SoundFontFlac => 0x5346_464C,
            AppId::SonyCreativeSoftware => 0x534F_4E59,
            AppId::Facsqueeze => 0x5351_455A,
            AppId::TwistedWave => 0x5474_5776,
            AppId::UitsEmbeddingTools => 0x5549_5453,
            AppId::FlacAiffChunkStorage => 0x6169_6666,
            AppId::FacImage => 0x696D_6167,
            AppId::ParseableEmbeddedExtensibleMetadata => 0x7065_656D,
            AppId::QflacStudio => 0x7166_7374,
            AppId::FlacRiffChunkStorage => 0x7269_6666,
            AppId::TagTuner => 0x7475_6E65,
            AppId::FlacWave64ChunkStorage => 0x7736_3420,
            AppId::XBAT => 0x7862_6174,
            AppId::Xmcd => 0x786D_6364,
            AppId::Other(n) => *n,
        }
    }
}

/// The data of an application: `N` bytes.
pub struct Application<const N: usize> {
    app_id: AppId,
    pub app_data: [u8; N],
}

impl<const N: usize> Application<N> {
    /// The application.
    pub closed spec fn app(&self) -> AppId {
        self.app_id
    }

    /// The data.
    pub closed spec fn data(&self) -> Seq<u8> {
        self.app_data@
    }

    /// The payload: the identifier in four bytes, the highest first, and
    /// the data.
    pub open spec fn to_bytes(&self) -> Seq<u8> {
        be_bytes(self.app().code() as nat, 4) + self.data()
    }

    /// The length of the payload in three bytes, and the payload.
    pub open spec fn encoding(&self) -> Seq<u8> {
        be_bytes((N + 4) as nat, 3) + self.to_bytes()
    }

    /// A block of `N` zero bytes for the application `app_id`.
    pub fn new(app_id: AppId) -> (application: Self)
        ensures
            application.app() == app_id,
            application.data() == Seq::new(N as nat, |i: int| 0u8),
    {
        let application = Self { app_id, app_data: [0u8; N] };
        assert(application.data() =~= Seq::new(N as nat, |i: int| 0u8));
        application
    }

    /// Writes the length and the payload.
    pub fn write<BS: ByteSink>(&self, sink: &mut BS)
        requires
            N + 4 < 0x100_0000,
            self.encoding().len() <= old(sink).room(),
        ensures
            final(sink).bytes() == old(sink).bytes() + self.encoding(),
            final(sink).room() == old(sink).room() - self.encoding().len(),
    {
        write_be(sink, (N + 4) as u128, 3);
        write_be(sink, self.app_id.id() as u128, 4);
        crate::copy_into(self.app_data.as_slice(), sink);
        proof {
            assert(sink.bytes() =~= old(sink).bytes() + self.encoding());
        }
    }
}

} // verus!
