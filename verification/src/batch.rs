//! Windows batch-file templates for the remote-trigger convenience
//! scripts: one script per audio file or playlist, each issuing the
//! matching request against this server.

use vstd::prelude::*;

verus! {

/// The script text requesting `/play/{name}` on `host_ip:port`. With
/// `with_async` the script hands off to a bundled helper and returns at
/// once; without, it waits for the response and passes a local
/// timestamp.
pub open spec fn batch_audio_text(
    audio_file_name: Seq<char>,
    host_ip: Seq<char>,
    port: Seq<char>,
    with_async: bool,
) -> Seq<char> {
    if with_async {
        "@echo off\n.\\async_get.exe -u http://"@ + host_ip + ":"@ + port + "/play/"@
            + audio_file_name + "\nexit\n"@
    } else {
        "@echo off\n<!-- :\nfor /f \"tokens=* usebackq\" %%a in (`start /b cscript //nologo \"%~f0?.wsf\"`) do (set timestamp=%%a)\ncurl -X GET http://"@
            + host_ip + ":"@ + port + "/play/"@ + audio_file_name
            + "?time=%timestamp%000000\nexit /b\n-->\n\n<job><script language=\"JavaScript\">\nWScript.Echo(new Date().getTime());\n</script></job>\n"@
    }
}

/// The script text requesting `/playlist/{name}`, shaped as for audio
/// files.
pub open spec fn batch_playlist_text(
    playlist_name: Seq<char>,
    host_ip: Seq<char>,
    port: Seq<char>,
    with_async: bool,
) -> Seq<char> {
    if with_async {
        "@echo off\n.\\async_get.exe -u http://"@ + host_ip + ":"@ + port + "/playlist/"@
            + playlist_name + "\nexit\n"@
    } else {
        "@echo off\n<!-- :\nfor /f \"tokens=* usebackq\" %%a in (`start /b cscript //nologo \"%~f0?.wsf\"`) do (set timestamp=%%a)\ncurl -X GET http://"@
            + host_ip + ":"@ + port + "/playlist/"@ + playlist_name
            + "?time=%timestamp%000000\nexit /b\n-->\n\n<job><script language=\"JavaScript\">\nWScript.Echo(new Date().getTime());\n</script></job>\n"@
    }
}

/// Builds the batch script that plays one audio file on this server.
pub fn create_batch_file_audio(
    audio_file_name: &str,
    host_ip: &str,
    port: &str,
    with_async: bool,
) -> (r: String)
    ensures
        r@ == batch_audio_text(audio_file_name@, host_ip@, port@, with_async),
{
    if with_async {
        let mut r = "@echo off\n.\\async_get.exe -u http://".to_owned();
        r.append(host_ip);
        r.append(":");
        r.append(port);
        r.append("/play/");
        r.append(audio_file_name);
        r.append("\nexit\n");
        proof {
            assert(r@ =~= batch_audio_text(audio_file_name@, host_ip@, port@, true));
        }
        r
    } else {
        let mut r =
            "@echo off\n<!-- :\nfor /f \"tokens=* usebackq\" %%a in (`start /b cscript //nologo \"%~f0?.wsf\"`) do (set timestamp=%%a)\ncurl -X GET http://".to_owned();
        r.append(host_ip);
        r.append(":");
        r.append(port);
        r.append("/play/");
        r.append(audio_file_name);
        r.append(
            "?time=%timestamp%000000\nexit /b\n-->\n\n<job><script language=\"JavaScript\">\nWScript.Echo(new Date().getTime());\n</script></job>\n",
        );
        proof {
            assert(r@ =~= batch_audio_text(audio_file_name@, host_ip@, port@, false));
        }
        r
    }
}

/// Builds the batch script that plays one stored playlist on this
/// server.
pub fn create_batch_file_playlist(
    playlist_name: &str,
    host_ip: &str,
    port: &str,
    with_async: bool,
) -> (r: String)
    ensures
        r@ == batch_playlist_text(playlist_name@, host_ip@, port@, with_async),
{
    if with_async {
        let mut r = "@echo off\n.\\async_get.exe -u http://".to_owned();
        r.append(host_ip);
        r.append(":");
        r.append(port);
        r.append("/playlist/");
        r.append(playlist_name);
        r.append("\nexit\n");
        proof {
            assert(r@ =~= batch_playlist_text(playlist_name@, host_ip@, port@, true));
        }
        r
    } else {
        let mut r =
            "@echo off\n<!-- :\nfor /f \"tokens=* usebackq\" %%a in (`start /b cscript //nologo \"%~f0?.wsf\"`) do (set timestamp=%%a)\ncurl -X GET http://".to_owned();
        r.append(host_ip);
        r.append(":");
        r.append(port);
        r.append("/playlist/");
        r.append(playlist_name);
        r.append(
            "?time=%timestamp%000000\nexit /b\n-->\n\n<job><script language=\"JavaScript\">\nWScript.Echo(new Date().getTime());\n</script></job>\n",
        );
        proof {
            assert(r@ =~= batch_playlist_text(playlist_name@, host_ip@, port@, false));
        }
        r
    }
}

} // verus!
