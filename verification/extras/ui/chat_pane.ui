<?xml version="1.0" encoding="UTF-8"?>
<interface>
  <requires lib="gtk" version="4.10"/>
  <object class="GtkBox" id="shell">
    <property name="orientation">vertical</property>
    <property name="vexpand">true</property>
    <property name="hexpand">false</property>
    <style><class name="multi-chat-pane-shell"/></style>
    <child><object class="GtkBox">
      <property name="hexpand">true</property>
      <style><class name="multi-chat-pane-edge-indicator"/><class name="multi-chat-pane-edge-indicator-top"/></style>
    </object></child>
    <child>
      <object class="GtkBox" id="root">
        <property name="orientation">vertical</property>
        <property name="spacing">6</property>
        <property name="vexpand">true</property>
        <property name="hexpand">false</property>
        <property name="width-request">460</property>
        <style><class name="multi-chat-pane"/></style>
        <child>
          <object class="GtkCenterBox" id="header">
            <property name="hexpand">true</property>
            <property name="margin-start">6</property>
            <property name="margin-end">6</property>
            <property name="margin-top">6</property>
            <style><class name="multi-chat-pane-header"/></style>
            <property name="start-widget">
              <object class="GtkBox">
                <property name="orientation">vertical</property>
                <property name="halign">start</property>
                <style><class name="multi-chat-pane-meta"/></style>
                <child>
                  <object class="GtkBox">
                    <property name="spacing">4</property>
                    <property name="hexpand">true</property>
                    <property name="halign">start</property>
                    <property name="valign">center</property>
                    <child><object class="GtkImage" id="profile_icon">
                      <property name="icon-name">person-symbolic</property>
                      <property name="pixel-size">11</property>
                      <property name="visible">false</property>
                      <style><class name="thread-profile-icon"/></style>
                    </object></child>
                    <child><object class="GtkLabel" id="title">
                      <property name="label">New thread</property>
                      <property name="xalign">0</property>
                      <property name="hexpand">true</property>
                      <property name="ellipsize">end</property>
                      <style><class name="multi-chat-pane-thread-title"/></style>
                    </object></child>
                  </object>
                </child>
                <child><object class="GtkLabel" id="workspace">
                  <property name="label">No workspace</property>
                  <property name="xalign">0</property>
                  <property name="ellipsize">end</property>
                  <style><class name="multi-chat-pane-workspace-name"/></style>
                </object></child>
              </object>
            </property>
            <property name="center-widget">
              <object class="GtkBox" id="tabs">
                <property name="halign">center</property>
                <style><class name="top-tabs"/></style>
              </object>
            </property>
            <property name="end-widget">
              <object class="GtkBox" id="header_end">
                <property name="spacing">2</property>
                <property name="halign">end</property>
                <property name="valign">center</property>
                <style><class name="multi-chat-pane-header-end"/></style>
                <child>
                  <object class="GtkBox" id="close">
                    <property name="name">multi-chat-pane-close</property>
                    <property name="can-focus">false</property>
                    <property name="halign">end</property>
                    <property name="visible">false</property>
                    <style><class name="multi-chat-pane-close"/></style>
                    <child><object class="GtkImage">
                      <property name="name">multi-chat-pane-close-icon</property>
                      <property name="icon-name">x-symbolic</property>
                      <property name="pixel-size">14</property>
                      <style><class name="multi-chat-pane-close-icon"/></style>
                    </object></child>
                  </object>
                </child>
              </object>
            </property>
          </object>
        </child>
        <child><object class="GtkStack" id="stack"><property name="vexpand">true</property></object></child>
      </object>
    </child>
    <child><object class="GtkBox">
      <property name="hexpand">true</property>
      <style><class name="multi-chat-pane-edge-indicator"/><class name="multi-chat-pane-edge-indicator-bottom"/></style>
    </object></child>
  </object>
</interface>
