use mc_client::launcher::install::progress::{java_progress, InstallStep};

#[test]
fn install_steps_report_under_their_descriptions() {
    let steps = [
        (InstallStep::CheckMetadata, "Checking Minecraft metadata"),
        (InstallStep::DownloadClient, "Downloading Minecraft client"),
        (InstallStep::DownloadLibraries, "Downloading Minecraft libraries"),
        (InstallStep::PrepareNatives, "Preparing native libraries"),
        (InstallStep::DownloadAssetIndex, "Downloading asset index"),
        (InstallStep::DownloadAssets, "Downloading Minecraft assets"),
        (InstallStep::DownloadLogging, "Downloading logging configuration"),
        (InstallStep::Finalize, "Finalizing instance"),
    ];
    for (step, description) in steps {
        assert_eq!(step.description(), description);
        let started = step.started();
        assert_eq!((started.description.as_str(), started.percent), (description, 0));
        let finished = step.finished();
        assert_eq!((finished.description.as_str(), finished.percent), (description, 100));
    }
}

#[test]
fn install_step_progress_counts_units() {
    assert_eq!(InstallStep::DownloadAssets.progress(3, 4).percent, 75);
    assert_eq!(InstallStep::PrepareNatives.progress(0, 0).percent, 100);
    assert_eq!(InstallStep::PrepareNatives.progress(0, 2).percent, 0);
    assert_eq!(InstallStep::PrepareNatives.progress(1, 2).description, "Preparing native libraries");
}

#[test]
fn java_progress_is_reported_as_downloading_java() {
    let p = java_progress(47);
    assert_eq!((p.description.as_str(), p.percent), ("Downloading Java", 47));
    assert_eq!(java_progress(200).percent, 100);
}
